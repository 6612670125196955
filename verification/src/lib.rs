//! Run clubs: clubs that pool a deposit and pay it out to their members
//! for the distance they ran, once a fixed competition period is over.
//!
//! `model` states what every operation does, as a state machine over
//! mathematical values. `contract` holds the ledger in memory and is
//! verified to follow that state machine step by step. `laws` proves what
//! holds of the state machine as a whole: the pool of a club is conserved
//! and never negative, nobody is a member twice, nobody redeems twice.
//!
//! `reward` and `arith` compute the share of a member exactly, over the
//! full product of two 128-bit numbers. `store`, `keyed` and `members`
//! relate the vectors that hold the state to the maps and sequences they
//! stand for. `token` keeps the balances of the token that is paid out.
//!
//! The ledger decides; it does not speak to a host. Who called, what time
//! it is and where the state is kept are the business of the caller, who
//! passes the caller's address and the time in and stores the state away.

pub mod arith;
pub mod contract;
pub mod keyed;
pub mod laws;
pub mod members;
pub mod model;
pub mod reward;
pub mod store;
pub mod token;
pub mod types;

pub use contract::RunClubContract;
pub use reward::compute_reward;
pub use token::{create_token, TokenBalance, TokenError, TokenLedger, TokenSetup};
pub use types::{Address, Club, ClubError, KmBalance, WithdrawalRule};
