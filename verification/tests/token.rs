//! The token: its deployment order and its balances.

use run_club::token::{balance, burn, check_sufficient_balance, mint, total_supply, transfer, validate_admin};
use run_club::{create_token, Address, TokenBalance, TokenError, TokenLedger};

fn who(key: &str) -> Address {
    Address::from_str(key)
}

#[test]
fn token_is_set_up_with_seven_decimals() {
    let admin = who("admin");
    let setup = create_token(Some([7u8; 32]), &admin, "Run Coin", "RUN").unwrap();
    assert_eq!(setup.wasm_hash, [7u8; 32]);
    assert_eq!(setup.admin, admin);
    assert_eq!(setup.decimal, 7);
    assert_eq!(setup.name, "Run Coin");
    assert_eq!(setup.symbol, "RUN");
}

#[test]
fn token_needs_a_registered_code_hash() {
    let refused = create_token(None, &who("admin"), "Run Coin", "RUN");
    assert_eq!(refused.err(), Some(TokenError::WasmHashNotSet));
}

#[test]
fn new_token_is_empty() {
    let ledger = TokenLedger::new(Some(who("admin")));
    assert_eq!(total_supply(&ledger), 0);
    assert_eq!(balance(&ledger, &who("anyone")), 0);
}

#[test]
fn mint_raises_supply_and_balance() {
    let mut ledger = TokenLedger::new(Some(who("admin")));
    assert_eq!(mint(&mut ledger, &who("a"), 40), Ok(()));
    assert_eq!(mint(&mut ledger, &who("b"), 2), Ok(()));
    assert_eq!(mint(&mut ledger, &who("a"), 1), Ok(()));
    assert_eq!(balance(&ledger, &who("a")), 41);
    assert_eq!(balance(&ledger, &who("b")), 2);
    assert_eq!(total_supply(&ledger), 43);
}

#[test]
fn mint_needs_an_administrator() {
    let mut ledger = TokenLedger::new(None);
    assert_eq!(mint(&mut ledger, &who("a"), 40), Err(TokenError::AdminNotSet));
    assert_eq!(balance(&ledger, &who("a")), 0);
    assert_eq!(total_supply(&ledger), 0);
}

#[test]
fn mint_stops_at_the_range() {
    let mut ledger = TokenLedger::new(Some(who("admin")));
    assert_eq!(mint(&mut ledger, &who("a"), i128::MAX), Ok(()));
    assert_eq!(mint(&mut ledger, &who("b"), 1), Err(TokenError::Overflow));
    assert_eq!(balance(&ledger, &who("b")), 0);
    assert_eq!(total_supply(&ledger), i128::MAX);
}

#[test]
fn burn_lowers_supply_and_balance() {
    let mut ledger = TokenLedger::new(Some(who("admin")));
    mint(&mut ledger, &who("a"), 40).unwrap();
    assert_eq!(burn(&mut ledger, &who("a"), 15), Ok(()));
    assert_eq!(balance(&ledger, &who("a")), 25);
    assert_eq!(total_supply(&ledger), 25);
    assert_eq!(burn(&mut ledger, &who("a"), 26), Err(TokenError::InsufficientBalance));
    assert_eq!(burn(&mut ledger, &who("b"), 1), Err(TokenError::InsufficientBalance));
    assert_eq!(balance(&ledger, &who("a")), 25);
    assert_eq!(total_supply(&ledger), 25);
    assert_eq!(burn(&mut ledger, &who("a"), 25), Ok(()));
    assert_eq!(total_supply(&ledger), 0);
}

#[test]
fn burn_stops_at_the_range() {
    let balances = vec![TokenBalance { holder: who("a"), amount: i128::MAX }];
    let mut ledger = TokenLedger::from_parts(None, 0, balances).unwrap();
    assert_eq!(burn(&mut ledger, &who("a"), -1), Err(TokenError::Overflow));
    assert_eq!(balance(&ledger, &who("a")), i128::MAX);
    let five = vec![TokenBalance { holder: who("a"), amount: 5 }];
    let mut low = TokenLedger::from_parts(None, i128::MIN, five).unwrap();
    assert_eq!(burn(&mut low, &who("a"), 1), Err(TokenError::Overflow));
    assert_eq!(total_supply(&low), i128::MIN);
    assert_eq!(balance(&low, &who("a")), 5);
}

#[test]
fn transfer_moves_tokens_and_keeps_the_supply() {
    let mut ledger = TokenLedger::new(Some(who("admin")));
    mint(&mut ledger, &who("a"), 40).unwrap();
    assert_eq!(transfer(&mut ledger, &who("a"), &who("b"), 15), Ok(()));
    assert_eq!(balance(&ledger, &who("a")), 25);
    assert_eq!(balance(&ledger, &who("b")), 15);
    assert_eq!(total_supply(&ledger), 40);
    assert_eq!(transfer(&mut ledger, &who("a"), &who("b"), 26), Err(TokenError::InsufficientBalance));
    assert_eq!(balance(&ledger, &who("a")), 25);
    assert_eq!(balance(&ledger, &who("b")), 15);
}

#[test]
fn transfer_to_oneself_changes_nothing() {
    let mut ledger = TokenLedger::new(Some(who("admin")));
    mint(&mut ledger, &who("a"), 40).unwrap();
    assert_eq!(transfer(&mut ledger, &who("a"), &who("a"), 15), Ok(()));
    assert_eq!(balance(&ledger, &who("a")), 40);
    assert_eq!(transfer(&mut ledger, &who("a"), &who("a"), 41), Err(TokenError::InsufficientBalance));
}

#[test]
fn transfer_stops_at_the_range() {
    let balances = vec![
        TokenBalance { holder: who("a"), amount: 10 },
        TokenBalance { holder: who("b"), amount: i128::MAX },
    ];
    let mut ledger = TokenLedger::from_parts(None, 0, balances).unwrap();
    assert_eq!(transfer(&mut ledger, &who("a"), &who("b"), 1), Err(TokenError::Overflow));
    assert_eq!(balance(&ledger, &who("a")), 10);
    assert_eq!(balance(&ledger, &who("b")), i128::MAX);
    assert_eq!(transfer(&mut ledger, &who("b"), &who("a"), -1), Err(TokenError::Overflow));
    assert_eq!(balance(&ledger, &who("a")), 10);
}

#[test]
fn administrator_is_recognised() {
    let ledger = TokenLedger::new(Some(who("admin")));
    assert_eq!(validate_admin(&ledger, &who("admin")), Ok(()));
    assert_eq!(validate_admin(&ledger, &who("other")), Err(TokenError::NotAuthorized));
    let orphan = TokenLedger::new(None);
    assert_eq!(validate_admin(&orphan, &who("admin")), Err(TokenError::AdminNotSet));
}

#[test]
fn sufficient_balance_is_recognised() {
    let mut ledger = TokenLedger::new(Some(who("admin")));
    mint(&mut ledger, &who("a"), 40).unwrap();
    assert_eq!(check_sufficient_balance(&ledger, &who("a"), 40), Ok(()));
    assert_eq!(check_sufficient_balance(&ledger, &who("a"), 41), Err(TokenError::InsufficientBalance));
    assert_eq!(check_sufficient_balance(&ledger, &who("b"), 0), Ok(()));
    assert_eq!(check_sufficient_balance(&ledger, &who("b"), 1), Err(TokenError::InsufficientBalance));
}

#[test]
fn token_is_taken_up_from_its_parts() {
    let balances = vec![
        TokenBalance { holder: who("a"), amount: 10 },
        TokenBalance { holder: who("b"), amount: 5 },
    ];
    let ledger = TokenLedger::from_parts(Some(who("admin")), 15, balances).unwrap();
    assert_eq!(balance(&ledger, &who("a")), 10);
    assert_eq!(balance(&ledger, &who("b")), 5);
    assert_eq!(total_supply(&ledger), 15);
    assert_eq!(validate_admin(&ledger, &who("admin")), Ok(()));
    let twice = vec![
        TokenBalance { holder: who("a"), amount: 10 },
        TokenBalance { holder: who("a"), amount: 5 },
    ];
    assert!(TokenLedger::from_parts(None, 15, twice).is_none());
}

#[test]
fn every_token_refusal_has_its_words() {
    assert_eq!(TokenError::WasmHashNotSet.message(), "Token Wasm Hash not set");
    assert_eq!(TokenError::AdminNotSet.message(), "admin not set");
    assert_eq!(TokenError::NotAuthorized.message(), "not authorized");
    assert_eq!(TokenError::InsufficientBalance.message(), "insufficient balance");
    assert_eq!(TokenError::Overflow.message(), "arithmetic overflow");
}
