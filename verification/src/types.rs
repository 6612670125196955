//! The records a run club is made of, and their mathematical views.

use vstd::prelude::*;

verus! {

/// How a club splits its pool among the members who hold distance credit.
#[derive(Clone, Copy, Debug, PartialEq, Eq, Structural)]
pub enum WithdrawalRule {
    /// Every member with a positive balance receives the same share.
    Equal,
    /// Every member receives a share proportional to their balance.
    Unlimited,
}

/// Why an operation was refused. A refused operation changes nothing.
#[derive(Clone, Copy, Debug, PartialEq, Eq, Structural)]
pub enum ClubError {
    /// The rate per kilometre is zero or negative.
    InvalidRate,
    /// The competition period has zero days.
    InvalidDuration,
    /// The amount to deposit is zero or negative.
    InvalidAmount,
    /// No club has the given id.
    NotFound,
    /// The address to remove is not a member of the club.
    MemberNotFound,
    /// The address is already a member of the club.
    DuplicateMember,
    /// The caller is not the organizer of the club.
    NotAuthorized,
    /// The club is already active.
    AlreadyActive,
    /// The club has not been activated.
    ClubInactive,
    /// The user is not a member of the club.
    NotMember,
    /// The competition period is still running.
    PeriodNotEnded,
    /// The user holds no distance credit in the club.
    NoTokensToRedeem,
    /// The reward is larger than what the pool holds.
    InsufficientPoolFunds,
    /// The pool of the club still holds funds.
    FundsRemaining,
    /// The exact result does not fit the integer type that has to hold it.
    Overflow,
}

/// The identity of an account or contract, held as its textual key.
/// Two addresses are the same principal exactly when their keys are equal.
#[derive(Debug)]
pub struct Address {
    key: String,
}

impl View for Address {
    type V = Seq<char>;

    closed spec fn view(&self) -> Seq<char> {
        self.key@
    }
}

/// What a refusal reads like when it is reported to a person.
pub open spec fn message_text(error: ClubError) -> Seq<char> {
    match error {
        ClubError::InvalidRate => "USDC per KM must be positive"@,
        ClubError::InvalidDuration => "Duration must be greater than 0"@,
        ClubError::InvalidAmount => "Amount must be positive"@,
        ClubError::NotFound => "Club not found"@,
        ClubError::MemberNotFound => "Member not found in club"@,
        ClubError::DuplicateMember => "Member already exists in club"@,
        ClubError::NotAuthorized => "Only the organizer can do this"@,
        ClubError::AlreadyActive => "Club is already active"@,
        ClubError::ClubInactive => "Club is not active"@,
        ClubError::NotMember => "User is not a member of this club"@,
        ClubError::PeriodNotEnded => "Club period has not ended yet"@,
        ClubError::NoTokensToRedeem => "User has no KM tokens to redeem"@,
        ClubError::InsufficientPoolFunds => "Insufficient USDC in club pool"@,
        ClubError::FundsRemaining => "Cannot remove club with deposited USDC"@,
        ClubError::Overflow => "Arithmetic overflow"@,
    }
}

impl ClubError {
    /// The refusal in words.
    pub fn message(&self) -> (text: String)
        ensures
            text@ == message_text(*self),
    {
        match self {
            ClubError::InvalidRate => "USDC per KM must be positive".to_owned(),
            ClubError::InvalidDuration => "Duration must be greater than 0".to_owned(),
            ClubError::InvalidAmount => "Amount must be positive".to_owned(),
            ClubError::NotFound => "Club not found".to_owned(),
            ClubError::MemberNotFound => "Member not found in club".to_owned(),
            ClubError::DuplicateMember => "Member already exists in club".to_owned(),
            ClubError::NotAuthorized => "Only the organizer can do this".to_owned(),
            ClubError::AlreadyActive => "Club is already active".to_owned(),
            ClubError::ClubInactive => "Club is not active".to_owned(),
            ClubError::NotMember => "User is not a member of this club".to_owned(),
            ClubError::PeriodNotEnded => "Club period has not ended yet".to_owned(),
            ClubError::NoTokensToRedeem => "User has no KM tokens to redeem".to_owned(),
            ClubError::InsufficientPoolFunds => "Insufficient USDC in club pool".to_owned(),
            ClubError::FundsRemaining => "Cannot remove club with deposited USDC".to_owned(),
            ClubError::Overflow => "Arithmetic overflow".to_owned(),
        }
    }
}

impl Address {
    /// The address with the given textual key.
    pub fn from_str(key: &str) -> (a: Address)
        ensures
            a@ == key@,
    {
        Address { key: key.to_owned() }
    }

    /// The textual key of this address.
    pub fn as_str(&self) -> (key: &str)
        ensures
            key@ == self@,
    {
        self.key.as_str()
    }

    /// Whether both addresses name the same principal.
    pub fn same(&self, other: &Address) -> (b: bool)
        ensures
            b == (self@ == other@),
    {
        self == other
    }
}

impl PartialEq for Address {
    fn eq(&self, other: &Address) -> (b: bool) {
        self.key == other.key
    }
}

impl Eq for Address {}

impl vstd::std_specs::cmp::PartialEqSpecImpl for Address {
    open spec fn obeys_eq_spec() -> bool {
        true
    }

    open spec fn eq_spec(&self, other: &Address) -> bool {
        self@ == other@
    }
}

impl Clone for Address {
    fn clone(&self) -> (a: Address)
        ensures
            a@ == self@,
    {
        Address { key: self.key.clone() }
    }
}

/// The keys of a list of addresses, in the same order.
pub open spec fn keys_of(addresses: Seq<Address>) -> Seq<Seq<char>> {
    addresses.map_values(|a: Address| a@)
}

/// A copy of a list of addresses.
pub fn clone_addresses(addresses: &Vec<Address>) -> (out: Vec<Address>)
    ensures
        keys_of(out@) == keys_of(addresses@),
{
    let mut out: Vec<Address> = Vec::new();
    let mut i: usize = 0;
    while i < addresses.len()
        invariant
            i <= addresses.len(),
            out.len() == i,
            forall|j: int| 0 <= j < i ==> out@[j]@ == addresses@[j]@,
        decreases addresses.len() - i,
    {
        out.push(addresses[i].clone());
        i += 1;
    }
    assert(keys_of(out@) =~= keys_of(addresses@));
    out
}

/// What a club is, as plain mathematical values: the fields of `Club`,
/// each by its view.
#[verifier::ext_equal]
pub struct ClubView {
    pub id: u64,
    pub name: Seq<char>,
    pub organizer: Seq<char>,
    pub members: Seq<Seq<char>>,
    pub usdc_deposited: i128,
    pub usdc_per_km: i128,
    pub withdrawal_rule: WithdrawalRule,
    pub month_end_timestamp: u64,
    pub is_active: bool,
}

impl ClubView {
    /// What holds of every club at all times: the pool is never negative,
    /// the rate is positive, and no address is a member twice.
    pub open spec fn valid(self) -> bool {
        &&& self.usdc_deposited >= 0
        &&& self.usdc_per_km > 0
        &&& self.members.no_duplicates()
    }
}

/// A running club: an organizer, members, a pool and a competition period.
#[derive(Debug)]
pub struct Club {
    /// The id the club was created under; ids start at 1.
    pub id: u64,
    /// The display name.
    pub name: String,
    /// The address that administers the club.
    pub organizer: Address,
    /// The current members, in the order in which they joined.
    pub members: Vec<Address>,
    /// The pooled funds that are available for redemption.
    pub usdc_deposited: i128,
    /// The rate set at creation. It does not enter the reward.
    pub usdc_per_km: i128,
    /// How the pool is split at the end of the period.
    pub withdrawal_rule: WithdrawalRule,
    /// The time from which redemption is open.
    pub month_end_timestamp: u64,
    /// Whether the club has been activated.
    pub is_active: bool,
}

impl View for Club {
    type V = ClubView;

    open spec fn view(&self) -> ClubView {
        ClubView {
            id: self.id,
            name: self.name@,
            organizer: self.organizer@,
            members: keys_of(self.members@),
            usdc_deposited: self.usdc_deposited,
            usdc_per_km: self.usdc_per_km,
            withdrawal_rule: self.withdrawal_rule,
            month_end_timestamp: self.month_end_timestamp,
            is_active: self.is_active,
        }
    }
}

impl Clone for Club {
    fn clone(&self) -> (c: Club)
        ensures
            c@ == self@,
    {
        Club {
            id: self.id,
            name: self.name.clone(),
            organizer: self.organizer.clone(),
            members: clone_addresses(&self.members),
            usdc_deposited: self.usdc_deposited,
            usdc_per_km: self.usdc_per_km,
            withdrawal_rule: self.withdrawal_rule,
            month_end_timestamp: self.month_end_timestamp,
            is_active: self.is_active,
        }
    }
}

/// The distance credit of one user in one club.
#[derive(Debug)]
pub struct KmBalance {
    /// Who holds the credit.
    pub user: Address,
    /// The club in which it was earned.
    pub club_id: u64,
    /// The credit itself.
    pub amount: i128,
}

} // verus!
