//! A deterministic, time-locked custody vault over a transactional ledger.
//!
//! A depositor locks a fixed amount for a named beneficiary behind an
//! absolute unlock time.  The vault's storage address is a pure function of
//! `(depositor, beneficiary, unlock_time)` plus a disambiguation nonce chosen
//! by the allocator; the beneficiary may withdraw the full balance exactly
//! once, at or after the unlock time, which destroys the record and refunds
//! the storage deposit to the depositor.
//!
//! There is no other mutation path: no top-up, no extension, and — by design —
//! no depositor-side cancellation or reclaim, even after the unlock time.

pub mod addressing;
pub mod laws;
pub mod ledger;
