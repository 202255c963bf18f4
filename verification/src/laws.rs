//! The guarantees the vault operations give together, each proved from the
//! transition specifications in `ledger` and the derivation in `addressing`.

use vstd::prelude::*;

use crate::addressing::derive_spec;
use crate::addressing::lemma_derive_injective;
use crate::ledger::create_at_result;
use crate::ledger::create_result;
use crate::ledger::lemma_vault_find_witness;
use crate::ledger::create_transition;
use crate::ledger::first_free_from;
use crate::ledger::free_at;
use crate::ledger::withdraw_result;
use crate::ledger::withdraw_transition;
use crate::ledger::Ledger;
use crate::ledger::Vault;
use crate::ledger::VaultError;

verus! {

/// Creation funds exactly once: a successful creation debits the depositor by
/// exactly the amount plus the storage deposit, and a record with the four
/// immutable fields and the chosen nonce exists at the derived address.
pub proof fn lemma_creation_funds_exactly_once(
    pre: Ledger,
    post: Ledger,
    depositor: u64,
    beneficiary: u64,
    unlock_time: i64,
    amount: u64,
    nonce: u8,
)
    requires
        create_result(pre, depositor, beneficiary, unlock_time, amount) == Ok::<u8, VaultError>(
            nonce,
        ),
        create_transition(pre, post, depositor, beneficiary, unlock_time, amount, nonce),
    ensures
        post.bal(depositor) as int == pre.bal(depositor) - amount - pre.storage_deposit,
        forall|id: u64| id != depositor ==> post.bal(id) == pre.bal(id),
        post.vault_at(derive_spec(depositor, beneficiary, unlock_time, nonce)) == Some(
            Vault { depositor, beneficiary, amount, unlock_time, derivation_nonce: nonce },
        ),
        post.total() == pre.total(),
{
}

/// No early release: while the ledger time is strictly before the unlock
/// time, withdrawal fails for every caller — with `HandsTooWeak` when the
/// request matches the record, with an authorization error otherwise.
/// (`withdraw_vault` further ensures that any failure leaves the ledger
/// untouched.)
pub proof fn lemma_no_early_release(
    l: Ledger,
    caller: u64,
    depositor: u64,
    beneficiary: u64,
    unlock_time: i64,
    nonce: u8,
    now: i64,
    v: Vault,
)
    requires
        l.vault_at(derive_spec(depositor, beneficiary, unlock_time, nonce)) == Some(v),
        now < v.unlock_time,
    ensures
        withdraw_result(l, caller, depositor, beneficiary, unlock_time, nonce, now) is Err,
        caller == v.beneficiary && depositor == v.depositor && nonce == v.derivation_nonce
            ==> withdraw_result(l, caller, depositor, beneficiary, unlock_time, nonce, now) == Err::<
            (),
            VaultError,
        >(VaultError::HandsTooWeak),
{
}

/// Exactly-once payout: once a withdrawal has succeeded, the record is gone,
/// so every further withdrawal with the same derivation inputs fails with
/// `NotFound`, whoever calls and whatever the time.  (`withdraw_vault`
/// further ensures that a failed withdrawal moves no balance.)
pub proof fn lemma_exactly_once_payout(
    pre: Ledger,
    post: Ledger,
    caller: u64,
    depositor: u64,
    beneficiary: u64,
    unlock_time: i64,
    nonce: u8,
    now: i64,
    v: Vault,
)
    requires
        withdraw_result(pre, caller, depositor, beneficiary, unlock_time, nonce, now) == Ok::<
            (),
            VaultError,
        >(()),
        pre.vault_at(derive_spec(depositor, beneficiary, unlock_time, nonce)) == Some(v),
        withdraw_transition(pre, post, v, derive_spec(depositor, beneficiary, unlock_time, nonce)),
    ensures
        forall|caller2: u64, now2: i64|
            withdraw_result(post, caller2, depositor, beneficiary, unlock_time, nonce, now2)
                == Err::<(), VaultError>(VaultError::NotFound),
{
}

/// Authorization is enforced both ways: a caller other than the recorded
/// beneficiary, or a supplied depositor other than the recorded one, is
/// refused with `WrongAccount` regardless of the timestamp.
pub proof fn lemma_authorization_enforced(
    l: Ledger,
    caller: u64,
    depositor: u64,
    beneficiary: u64,
    unlock_time: i64,
    nonce: u8,
    now: i64,
    v: Vault,
)
    requires
        l.vault_at(derive_spec(depositor, beneficiary, unlock_time, nonce)) == Some(v),
        caller != v.beneficiary || depositor != v.depositor,
    ensures
        withdraw_result(l, caller, depositor, beneficiary, unlock_time, nonce, now) == Err::<
            (),
            VaultError,
        >(VaultError::WrongAccount),
{
}

/// Determinism of addressing, allocator side: when the least free nonce for a
/// triple is `n`, creation succeeds exactly with `n` whenever the depositor
/// can pay, so re-running the derivation reproduces the recorded address.
pub proof fn lemma_allocator_picks_least_free(
    l: Ledger,
    depositor: u64,
    beneficiary: u64,
    unlock_time: i64,
    amount: u64,
    nonce: u8,
)
    requires
        l.bal(depositor) as int >= amount + l.storage_deposit,
        first_free_from(l, depositor, beneficiary, unlock_time, 0u8) == Some(nonce),
    ensures
        create_result(l, depositor, beneficiary, unlock_time, amount) == Ok::<u8, VaultError>(
            nonce,
        ),
        free_at(l, depositor, beneficiary, unlock_time, nonce),
        forall|k: u8| k < nonce ==> !free_at(l, depositor, beneficiary, unlock_time, k),
{
    lemma_first_free_is_least(l, depositor, beneficiary, unlock_time, 0u8, nonce);
}

/// Determinism of addressing, collision side: while a vault occupies the
/// address a nonce derives, creation forced onto that same nonce is refused —
/// with `AddressCollision` whenever the depositor could otherwise pay.
pub proof fn lemma_nonce_reuse_collides(
    l: Ledger,
    depositor: u64,
    beneficiary: u64,
    unlock_time: i64,
    amount: u64,
    nonce: u8,
)
    requires
        l.vault_at(derive_spec(depositor, beneficiary, unlock_time, nonce)) is Some,
    ensures
        create_at_result(l, depositor, beneficiary, unlock_time, amount, nonce) is Err,
        l.bal(depositor) as int >= amount + l.storage_deposit ==> create_at_result(
            l,
            depositor,
            beneficiary,
            unlock_time,
            amount,
            nonce,
        ) == Err::<u8, VaultError>(VaultError::AddressCollision),
{
}

/// Determinism of addressing, lookup side: in a well-formed ledger the record
/// found at a derived address carries exactly the derivation's own fields, so
/// a lookup triple can never be paired with another vault's record.
pub proof fn lemma_record_matches_derivation(
    l: Ledger,
    depositor: u64,
    beneficiary: u64,
    unlock_time: i64,
    nonce: u8,
    v: Vault,
)
    requires
        l.wf(),
        l.vault_at(derive_spec(depositor, beneficiary, unlock_time, nonce)) == Some(v),
    ensures
        v.depositor == depositor,
        v.beneficiary == beneficiary,
        v.unlock_time == unlock_time,
        v.derivation_nonce == nonce,
{
    let addr = derive_spec(depositor, beneficiary, unlock_time, nonce);
    lemma_vault_find_witness(l.vaults@, addr, v);
    lemma_derive_injective(
        depositor,
        beneficiary,
        unlock_time,
        nonce,
        v.depositor,
        v.beneficiary,
        v.unlock_time,
        v.derivation_nonce,
    );
}

proof fn lemma_first_free_is_least(
    l: Ledger,
    depositor: u64,
    beneficiary: u64,
    unlock_time: i64,
    from: u8,
    nonce: u8,
)
    requires
        first_free_from(l, depositor, beneficiary, unlock_time, from) == Some(nonce),
    ensures
        free_at(l, depositor, beneficiary, unlock_time, nonce),
        forall|k: u8| from <= k < nonce ==> !free_at(l, depositor, beneficiary, unlock_time, k),
    decreases 255 - from,
{
    if !free_at(l, depositor, beneficiary, unlock_time, from) && from < 255 {
        lemma_first_free_is_least(l, depositor, beneficiary, unlock_time, (from + 1) as u8, nonce);
    }
}

} // verus!
