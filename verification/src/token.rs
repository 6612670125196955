//! The token that a club pays out in: who holds how much, and what the
//! host is asked to deploy when a new token is made.

use crate::arith::fits_i128;
use crate::keyed::{keys_distinct, lemma_entry, lemma_entry_changed, lemma_entry_pushed, lemma_no_entry, map_of, Keyed};
use crate::types::Address;
use vstd::prelude::*;

verus! {

/// The number of decimals that every token of a club is created with.
pub const TOKEN_DECIMALS: u32 = 7;

/// Why a token operation was refused. A refused operation changes nothing.
#[derive(Clone, Copy, Debug, PartialEq, Eq, Structural)]
pub enum TokenError {
    /// No token code hash has been registered.
    WasmHashNotSet,
    /// The token has no administrator.
    AdminNotSet,
    /// The caller is not the administrator.
    NotAuthorized,
    /// The holder has less than the amount asked for.
    InsufficientBalance,
    /// The exact result does not fit 128 bits.
    Overflow,
}

/// What a token refusal reads like when it is reported to a person.
pub open spec fn token_message_text(error: TokenError) -> Seq<char> {
    match error {
        TokenError::WasmHashNotSet => "Token Wasm Hash not set"@,
        TokenError::AdminNotSet => "admin not set"@,
        TokenError::NotAuthorized => "not authorized"@,
        TokenError::InsufficientBalance => "insufficient balance"@,
        TokenError::Overflow => "arithmetic overflow"@,
    }
}

impl TokenError {
    /// The refusal in words.
    pub fn message(&self) -> (text: String)
        ensures
            text@ == token_message_text(*self),
    {
        match self {
            TokenError::WasmHashNotSet => "Token Wasm Hash not set".to_owned(),
            TokenError::AdminNotSet => "admin not set".to_owned(),
            TokenError::NotAuthorized => "not authorized".to_owned(),
            TokenError::InsufficientBalance => "insufficient balance".to_owned(),
            TokenError::Overflow => "arithmetic overflow".to_owned(),
        }
    }
}

/// An order to deploy the token code with the given hash and to
/// initialize the new token.
#[derive(Debug)]
pub struct TokenSetup {
    /// The hash of the token code to deploy.
    pub wasm_hash: [u8; 32],
    /// Who administers the token.
    pub admin: Address,
    /// The number of decimals of the token.
    pub decimal: u32,
    /// The name of the token.
    pub name: String,
    /// The symbol of the token.
    pub symbol: String,
}

/// The order to deploy a token for `admin`, from the code hash that was
/// registered, if any. Without a registered hash no token can be made.
pub fn create_token(wasm_hash: Option<[u8; 32]>, admin: &Address, name: &str, symbol: &str) -> (result: Result<
    TokenSetup,
    TokenError,
>)
    ensures
        match result {
            Ok(setup) => {
                &&& wasm_hash == Some(setup.wasm_hash)
                &&& setup.admin@ == admin@
                &&& setup.decimal == TOKEN_DECIMALS
                &&& setup.name@ == name@
                &&& setup.symbol@ == symbol@
            },
            Err(error) => wasm_hash is None && error == TokenError::WasmHashNotSet,
        },
{
    match wasm_hash {
        None => Err(TokenError::WasmHashNotSet),
        Some(hash) => Ok(
            TokenSetup {
                wasm_hash: hash,
                admin: admin.clone(),
                decimal: TOKEN_DECIMALS,
                name: name.to_owned(),
                symbol: symbol.to_owned(),
            },
        ),
    }
}

/// What `balances` holds for `holder`; zero where nothing was recorded.
pub open spec fn held_by(balances: Map<Seq<char>, i128>, holder: Seq<char>) -> i128 {
    if balances.contains_key(holder) {
        balances[holder]
    } else {
        0
    }
}

/// The state of a token as plain mathematical values.
#[verifier::ext_equal]
pub struct TokenView {
    /// Who administers the token, if anyone.
    pub admin: Option<Seq<char>>,
    /// How much of the token exists.
    pub total_supply: i128,
    /// How much each holder has. A missing entry is zero.
    pub balances: Map<Seq<char>, i128>,
}

impl TokenView {
    /// What `holder` has.
    pub open spec fn balance(self, holder: Seq<char>) -> i128 {
        held_by(self.balances, holder)
    }

    /// Whether `caller` is the administrator.
    pub open spec fn validate_admin(self, caller: Seq<char>) -> Result<(), TokenError> {
        match self.admin {
            None => Err(TokenError::AdminNotSet),
            Some(admin) => if caller == admin {
                Ok(())
            } else {
                Err(TokenError::NotAuthorized)
            },
        }
    }

    /// Whether `account` has at least `amount`.
    pub open spec fn check_sufficient_balance(self, account: Seq<char>, amount: i128) -> Result<(), TokenError> {
        if self.balance(account) < amount {
            Err(TokenError::InsufficientBalance)
        } else {
            Ok(())
        }
    }

    /// Makes `amount` new tokens and gives them to `to`.
    pub open spec fn mint(self, to: Seq<char>, amount: i128) -> (TokenView, Result<(), TokenError>) {
        if self.admin is None {
            (self, Err(TokenError::AdminNotSet))
        } else if !fits_i128(self.total_supply + amount) || !fits_i128(self.balance(to) + amount) {
            (self, Err(TokenError::Overflow))
        } else {
            (
                TokenView {
                    total_supply: (self.total_supply + amount) as i128,
                    balances: self.balances.insert(to, (self.balance(to) + amount) as i128),
                    ..self
                },
                Ok(()),
            )
        }
    }

    /// Takes `amount` tokens from `from` and out of existence.
    pub open spec fn burn(self, from: Seq<char>, amount: i128) -> (TokenView, Result<(), TokenError>) {
        if self.balance(from) < amount {
            (self, Err(TokenError::InsufficientBalance))
        } else if !fits_i128(self.balance(from) - amount) || !fits_i128(self.total_supply - amount) {
            (self, Err(TokenError::Overflow))
        } else {
            (
                TokenView {
                    total_supply: (self.total_supply - amount) as i128,
                    balances: self.balances.insert(from, (self.balance(from) - amount) as i128),
                    ..self
                },
                Ok(()),
            )
        }
    }

    /// Moves `amount` tokens from `from` to `to`. What `to` receives is
    /// added to what `to` has after `from` was charged, so a transfer to
    /// oneself changes nothing.
    pub open spec fn transfer(self, from: Seq<char>, to: Seq<char>, amount: i128) -> (
        TokenView,
        Result<(), TokenError>,
    ) {
        if self.balance(from) < amount {
            (self, Err(TokenError::InsufficientBalance))
        } else if !fits_i128(self.balance(from) - amount) {
            (self, Err(TokenError::Overflow))
        } else {
            let charged = self.balances.insert(from, (self.balance(from) - amount) as i128);
            if !fits_i128(held_by(charged, to) + amount) {
                (self, Err(TokenError::Overflow))
            } else {
                (TokenView { balances: charged.insert(to, (held_by(charged, to) + amount) as i128), ..self }, Ok(()))
            }
        }
    }
}

/// What one holder has of a token.
#[derive(Debug)]
pub struct TokenBalance {
    /// Who holds the tokens.
    pub holder: Address,
    /// How many they hold.
    pub amount: i128,
}

impl Keyed for TokenBalance {
    type Key = Seq<char>;

    type Value = i128;

    open spec fn key(&self) -> Seq<char> {
        self.holder@
    }

    open spec fn value(&self) -> i128 {
        self.amount
    }
}

/// The state that an administrator, a supply and a list of balances
/// stand for.
pub open spec fn token_of(admin: Option<Address>, total_supply: i128, balances: Seq<TokenBalance>) -> TokenView {
    TokenView {
        admin: match admin {
            Some(a) => Some(a@),
            None => None,
        },
        total_supply,
        balances: map_of(balances),
    }
}

/// The position of the entry of `holder`.
fn find_holder(balances: &Vec<TokenBalance>, holder: &Address) -> (found: Option<usize>)
    ensures
        match found {
            Some(k) => k < balances.len() && balances@[k as int].key() == holder@,
            None => forall|i: int| 0 <= i < balances.len() ==> balances@[i].key() != holder@,
        },
{
    let mut i: usize = 0;
    while i < balances.len()
        invariant
            i <= balances.len(),
            forall|j: int| 0 <= j < i ==> balances@[j].key() != holder@,
        decreases balances.len() - i,
    {
        if balances[i].holder.same(holder) {
            return Some(i);
        }
        i += 1;
    }
    None
}

/// What the list holds for `holder`; zero where it has no entry.
fn holding(balances: &Vec<TokenBalance>, holder: &Address) -> (amount: i128)
    requires
        keys_distinct(balances@),
    ensures
        amount == held_by(map_of(balances@), holder@),
{
    match find_holder(balances, holder) {
        Some(k) => {
            proof {
                lemma_entry(balances@, k as int);
            }
            balances[k].amount
        },
        None => {
            proof {
                lemma_no_entry(balances@, holder@);
            }
            0
        },
    }
}

/// Records that `holder` has `amount`.
fn record(balances: &mut Vec<TokenBalance>, holder: &Address, amount: i128)
    requires
        keys_distinct(old(balances)@),
    ensures
        keys_distinct(final(balances)@),
        map_of(final(balances)@) == map_of(old(balances)@).insert(holder@, amount),
{
    match find_holder(balances, holder) {
        Some(k) => {
            balances[k].amount = amount;
            proof {
                lemma_entry_changed(old(balances)@, balances@, k as int);
            }
        },
        None => {
            let entry = TokenBalance { holder: holder.clone(), amount };
            proof {
                lemma_entry_pushed(balances@, entry);
            }
            balances.push(entry);
        },
    }
}

/// A token: its administrator, its supply, and what each holder has.
pub struct TokenLedger {
    admin: Option<Address>,
    total_supply: i128,
    balances: Vec<TokenBalance>,
}

impl View for TokenLedger {
    type V = TokenView;

    closed spec fn view(&self) -> TokenView {
        token_of(self.admin, self.total_supply, self.balances@)
    }
}

impl TokenLedger {
    /// The representation is sound: no holder has two entries.
    pub closed spec fn wf(&self) -> bool {
        keys_distinct(self.balances@)
    }

    /// A token without supply and without holders.
    pub fn new(admin: Option<Address>) -> (ledger: TokenLedger)
        ensures
            ledger.wf(),
            ledger@ == token_of(admin, 0, Seq::empty()),
            ledger@.total_supply == 0,
            forall|holder: Seq<char>| ledger@.balance(holder) == 0,
    {
        TokenLedger { admin, total_supply: 0, balances: Vec::new() }
    }

    /// The token with the given administrator, supply and balances, for
    /// taking up a state that was stored away. `None` says that a holder
    /// has two entries.
    pub fn from_parts(admin: Option<Address>, total_supply: i128, balances: Vec<TokenBalance>) -> (result: Option<
        TokenLedger,
    >)
        ensures
            match result {
                Some(ledger) => {
                    &&& keys_distinct(balances@)
                    &&& ledger.wf()
                    &&& ledger@ == token_of(admin, total_supply, balances@)
                },
                None => !keys_distinct(balances@),
            },
    {
        let mut i: usize = 0;
        while i < balances.len()
            invariant
                i <= balances.len(),
                forall|a: int, b: int| 0 <= a < b < i ==> balances@[a].key() != balances@[b].key(),
            decreases balances.len() - i,
        {
            let mut j: usize = 0;
            while j < i
                invariant
                    j <= i,
                    i < balances.len(),
                    forall|a: int| 0 <= a < j ==> balances@[a].key() != balances@[i as int].key(),
                decreases i - j,
            {
                if balances[j].holder.same(&balances[i].holder) {
                    assert(balances@[j as int].key() == balances@[i as int].key());
                    return None;
                }
                j += 1;
            }
            i += 1;
        }
        Some(TokenLedger { admin, total_supply, balances })
    }
}

/// What `id` has of the token; zero where nothing was recorded.
pub fn balance(ledger: &TokenLedger, id: &Address) -> (amount: i128)
    requires
        ledger.wf(),
    ensures
        amount == ledger@.balance(id@),
{
    holding(&ledger.balances, id)
}

/// How much of the token exists.
pub fn total_supply(ledger: &TokenLedger) -> (amount: i128)
    ensures
        amount == ledger@.total_supply,
{
    ledger.total_supply
}

/// Accepts `caller` as the administrator of the token, or says why not.
pub fn validate_admin(ledger: &TokenLedger, caller: &Address) -> (result: Result<(), TokenError>)
    ensures
        result == ledger@.validate_admin(caller@),
{
    match &ledger.admin {
        None => Err(TokenError::AdminNotSet),
        Some(admin) => if caller.same(admin) {
            Ok(())
        } else {
            Err(TokenError::NotAuthorized)
        },
    }
}

/// Accepts that `account` has at least `amount`, or says that it has not.
pub fn check_sufficient_balance(ledger: &TokenLedger, account: &Address, amount: i128) -> (result: Result<
    (),
    TokenError,
>)
    requires
        ledger.wf(),
    ensures
        result == ledger@.check_sufficient_balance(account@, amount),
{
    if holding(&ledger.balances, account) < amount {
        Err(TokenError::InsufficientBalance)
    } else {
        Ok(())
    }
}

/// Makes `amount` new tokens and gives them to `to`. The token has to
/// have an administrator, whose consent the caller has to have.
pub fn mint(ledger: &mut TokenLedger, to: &Address, amount: i128) -> (result: Result<(), TokenError>)
    requires
        old(ledger).wf(),
    ensures
        final(ledger).wf(),
        (final(ledger)@, result) == old(ledger)@.mint(to@, amount),
{
    if ledger.admin.is_none() {
        return Err(TokenError::AdminNotSet);
    }
    let held = holding(&ledger.balances, to);
    match (ledger.total_supply.checked_add(amount), held.checked_add(amount)) {
        (Some(supply), Some(sum)) => {
            ledger.total_supply = supply;
            record(&mut ledger.balances, to, sum);
            assert(ledger@ =~= old(ledger)@.mint(to@, amount).0);
            Ok(())
        },
        _ => Err(TokenError::Overflow),
    }
}

/// Takes `amount` tokens from `from` and out of existence.
pub fn burn(ledger: &mut TokenLedger, from: &Address, amount: i128) -> (result: Result<(), TokenError>)
    requires
        old(ledger).wf(),
    ensures
        final(ledger).wf(),
        (final(ledger)@, result) == old(ledger)@.burn(from@, amount),
{
    let held = holding(&ledger.balances, from);
    if held < amount {
        return Err(TokenError::InsufficientBalance);
    }
    match (held.checked_sub(amount), ledger.total_supply.checked_sub(amount)) {
        (Some(rest), Some(supply)) => {
            record(&mut ledger.balances, from, rest);
            ledger.total_supply = supply;
            assert(ledger@ =~= old(ledger)@.burn(from@, amount).0);
            Ok(())
        },
        _ => Err(TokenError::Overflow),
    }
}

/// Moves `amount` tokens from `from` to `to`.
pub fn transfer(ledger: &mut TokenLedger, from: &Address, to: &Address, amount: i128) -> (result: Result<
    (),
    TokenError,
>)
    requires
        old(ledger).wf(),
    ensures
        final(ledger).wf(),
        (final(ledger)@, result) == old(ledger)@.transfer(from@, to@, amount),
{
    let held = holding(&ledger.balances, from);
    if held < amount {
        return Err(TokenError::InsufficientBalance);
    }
    match held.checked_sub(amount) {
        None => Err(TokenError::Overflow),
        Some(rest) => {
            let before = if to.same(from) {
                rest
            } else {
                holding(&ledger.balances, to)
            };
            match before.checked_add(amount) {
                None => Err(TokenError::Overflow),
                Some(sum) => {
                    record(&mut ledger.balances, from, rest);
                    record(&mut ledger.balances, to, sum);
                    assert(ledger@ =~= old(ledger)@.transfer(from@, to@, amount).0);
                    Ok(())
                },
            }
        },
    }
}

} // verus!
