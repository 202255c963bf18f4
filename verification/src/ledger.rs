//! The ledger and its two vault operations.
//!
//! The ledger is a transactional store of account balances and vault records.
//! `create_vault` atomically debits the depositor and records a vault at a
//! deterministically derived address; `withdraw_vault` pays the full amount to
//! the beneficiary, refunds the storage deposit to the depositor, and destroys
//! the record.  Every operation either takes full effect or leaves the ledger
//! untouched, and no operation creates or destroys funds.

use vstd::prelude::*;

use crate::addressing::derive_address;
use crate::addressing::derive_spec;

verus! {

/// One failure condition per rejected precondition; no partial success.
#[derive(Clone, Copy, Debug, PartialEq, Eq, Structural)]
pub enum VaultError {
    /// The depositor's balance cannot cover the amount plus the storage deposit.
    InsufficientFunds,
    /// Every candidate nonce derives an occupied address.
    AddressCollision,
    /// Withdrawal attempted before the unlock time.
    HandsTooWeak,
    /// The caller is not the recorded beneficiary, or the supplied depositor
    /// or nonce does not match the record.
    WrongAccount,
    /// No vault exists at the derived address.
    NotFound,
}

/// The immutable metadata of one vault, written at creation and destroyed by
/// the single successful withdrawal.
#[derive(Clone, Copy, Debug, PartialEq, Eq, Structural)]
pub struct Vault {
    /// The party who funded the vault.
    pub depositor: u64,
    /// The identity authorized to withdraw.
    pub beneficiary: u64,
    /// The locked balance, fixed at creation.
    pub amount: u64,
    /// The absolute timestamp before which withdrawal is refused.
    pub unlock_time: i64,
    /// The disambiguation nonce used to derive the vault's address.
    pub derivation_nonce: u8,
}

/// A vault record together with the address it is stored at.
pub struct VaultSlot {
    pub address: Vec<u8>,
    pub vault: Vault,
}

/// One account's spendable balance.
#[derive(Clone, Copy, Debug, PartialEq, Eq, Structural)]
pub struct AccountEntry {
    pub id: u64,
    pub balance: u64,
}

/// The address a successful creation returned, with the nonce the allocator
/// chose; both are needed to re-derive the address on withdrawal.
pub struct VaultHandle {
    pub address: Vec<u8>,
    pub nonce: u8,
}

/// The ledger: account balances, live vault records, and the fixed storage
/// deposit billed per vault and refunded on withdrawal.
pub struct Ledger {
    pub storage_deposit: u64,
    pub accounts: Vec<AccountEntry>,
    pub vaults: Vec<VaultSlot>,
}

/// The balance of `id`: the first matching entry, or zero when absent.
pub open spec fn bal_in(s: Seq<AccountEntry>, id: u64) -> u64
    decreases s.len(),
{
    if s.len() == 0 {
        0
    } else if s[0].id == id {
        s[0].balance
    } else {
        bal_in(s.skip(1), id)
    }
}

/// The vault stored at `addr`, if any.
pub open spec fn vault_find(s: Seq<VaultSlot>, addr: Seq<u8>) -> Option<Vault>
    decreases s.len(),
{
    if s.len() == 0 {
        None
    } else if s[0].address@ == addr {
        Some(s[0].vault)
    } else {
        vault_find(s.skip(1), addr)
    }
}

/// The sum of all account balances.
pub open spec fn sum_accounts(s: Seq<AccountEntry>) -> int
    decreases s.len(),
{
    if s.len() == 0 {
        0
    } else {
        s[0].balance + sum_accounts(s.skip(1))
    }
}

/// The funds held by the vaults: each locked amount plus its storage deposit.
pub open spec fn sum_vaults(s: Seq<VaultSlot>, deposit: u64) -> int
    decreases s.len(),
{
    if s.len() == 0 {
        0
    } else {
        s[0].vault.amount + deposit + sum_vaults(s.skip(1), deposit)
    }
}

/// No two entries carry the same account id.
pub open spec fn accounts_distinct(s: Seq<AccountEntry>) -> bool {
    forall|i: int, j: int| 0 <= i < j < s.len() ==> s[i].id != s[j].id
}

/// No two vaults share an address.
pub open spec fn vaults_distinct(s: Seq<VaultSlot>) -> bool {
    forall|i: int, j: int| 0 <= i < j < s.len() ==> s[i].address@ != s[j].address@
}

/// Every vault sits at the address derived from its own fields.
pub open spec fn vaults_coherent(s: Seq<VaultSlot>) -> bool {
    forall|i: int|
        0 <= i < s.len() ==> s[i].address@ == derive_spec(
            s[i].vault.depositor,
            s[i].vault.beneficiary,
            s[i].vault.unlock_time,
            s[i].vault.derivation_nonce,
        )
}

impl Ledger {
    /// The balance of `id`; an account never seen holds zero.
    pub open spec fn bal(self, id: u64) -> u64 {
        bal_in(self.accounts@, id)
    }

    /// The vault record at `addr`, if one exists.
    pub open spec fn vault_at(self, addr: Seq<u8>) -> Option<Vault> {
        vault_find(self.vaults@, addr)
    }

    /// All funds on the ledger: balances plus vault holdings.
    pub open spec fn total(self) -> int {
        sum_accounts(self.accounts@) + sum_vaults(self.vaults@, self.storage_deposit)
    }

    /// Well-formedness: unique accounts, uniquely and coherently addressed
    /// vaults, and a total that a balance can never overflow.
    pub open spec fn wf(self) -> bool {
        &&& accounts_distinct(self.accounts@)
        &&& vaults_distinct(self.vaults@)
        &&& vaults_coherent(self.vaults@)
        &&& self.total() <= u64::MAX
    }
}

proof fn lemma_bal_prefix(s: Seq<AccountEntry>, i: int, id: u64)
    requires
        0 <= i <= s.len(),
        forall|j: int| 0 <= j < i ==> s[j].id != id,
    ensures
        bal_in(s, id) == bal_in(s.skip(i), id),
    decreases i,
{
    if i == 0 {
        assert(s.skip(0) =~= s);
    } else {
        assert(s[0].id != id);
        assert forall|j: int| 0 <= j < i - 1 implies s.skip(1)[j].id != id by {
            assert(s.skip(1)[j] == s[j + 1]);
        }
        assert(s.skip(1).skip(i - 1) =~= s.skip(i));
        lemma_bal_prefix(s.skip(1), i - 1, id);
        assert(bal_in(s, id) == bal_in(s.skip(1), id));
        assert(bal_in(s.skip(1), id) == bal_in(s.skip(1).skip(i - 1), id));
        assert(bal_in(s.skip(1).skip(i - 1), id) == bal_in(s.skip(i), id));
    }
}

proof fn lemma_vault_prefix(s: Seq<VaultSlot>, i: int, addr: Seq<u8>)
    requires
        0 <= i <= s.len(),
        forall|j: int| 0 <= j < i ==> s[j].address@ != addr,
    ensures
        vault_find(s, addr) == vault_find(s.skip(i), addr),
    decreases i,
{
    if i == 0 {
        assert(s.skip(0) =~= s);
    } else {
        assert(s[0].address@ != addr);
        assert forall|j: int| 0 <= j < i - 1 implies s.skip(1)[j].address@ != addr by {
            assert(s.skip(1)[j] == s[j + 1]);
        }
        assert(s.skip(1).skip(i - 1) =~= s.skip(i));
        lemma_vault_prefix(s.skip(1), i - 1, addr);
        assert(vault_find(s, addr) == vault_find(s.skip(1), addr));
        assert(vault_find(s.skip(1), addr) == vault_find(s.skip(1).skip(i - 1), addr));
        assert(vault_find(s.skip(1).skip(i - 1), addr) == vault_find(s.skip(i), addr));
    }
}

proof fn lemma_bal_update(s: Seq<AccountEntry>, i: int, e: AccountEntry)
    requires
        0 <= i < s.len(),
        s[i].id == e.id,
        forall|j: int| 0 <= j < i ==> s[j].id != e.id,
    ensures
        bal_in(s.update(i, e), e.id) == e.balance,
        forall|x: u64| x != e.id ==> bal_in(s.update(i, e), x) == bal_in(s, x),
    decreases i,
{
    if i == 0 {
        assert(s.update(0, e).skip(1) =~= s.skip(1));
        assert forall|x: u64| x != e.id implies bal_in(s.update(0, e), x) == bal_in(s, x) by {
            assert(s.update(0, e)[0] == e);
        }
    } else {
        assert(s.update(i, e).skip(1) =~= s.skip(1).update(i - 1, e));
        assert forall|j: int| 0 <= j < i - 1 implies s.skip(1)[j].id != e.id by {
            assert(s.skip(1)[j] == s[j + 1]);
        }
        lemma_bal_update(s.skip(1), i - 1, e);
        assert(s.update(i, e)[0] == s[0]);
        assert(s[0].id != e.id);
        assert(bal_in(s.update(i, e), e.id) == e.balance);
        assert forall|x: u64| x != e.id implies bal_in(s.update(i, e), x) == bal_in(s, x) by {
            if s[0].id != x {
                assert(bal_in(s.update(i, e), x) == bal_in(s.skip(1).update(i - 1, e), x));
                assert(bal_in(s, x) == bal_in(s.skip(1), x));
            }
        }
    }
}

proof fn lemma_bal_push(s: Seq<AccountEntry>, e: AccountEntry)
    requires
        forall|j: int| 0 <= j < s.len() ==> s[j].id != e.id,
    ensures
        bal_in(s.push(e), e.id) == e.balance,
        forall|x: u64| x != e.id ==> bal_in(s.push(e), x) == bal_in(s, x),
    decreases s.len(),
{
    if s.len() == 0 {
        assert forall|x: u64| x != e.id implies bal_in(s.push(e), x) == bal_in(s, x) by {
            assert(s.push(e)[0] == e);
            assert(s.push(e).skip(1) =~= s);
        }
        assert(s.push(e)[0] == e);
    } else {
        assert(s.push(e).skip(1) =~= s.skip(1).push(e));
        assert forall|j: int| 0 <= j < s.skip(1).len() implies s.skip(1)[j].id != e.id by {
            assert(s.skip(1)[j] == s[j + 1]);
        }
        lemma_bal_push(s.skip(1), e);
        assert(s.push(e)[0] == s[0]);
        assert(s[0].id != e.id);
        assert forall|x: u64| x != e.id implies bal_in(s.push(e), x) == bal_in(s, x) by {
            if s[0].id != x {
                assert(bal_in(s.push(e), x) == bal_in(s.skip(1).push(e), x));
                assert(bal_in(s, x) == bal_in(s.skip(1), x));
            }
        }
    }
}

proof fn lemma_sum_accounts_update(s: Seq<AccountEntry>, i: int, e: AccountEntry)
    requires
        0 <= i < s.len(),
    ensures
        sum_accounts(s.update(i, e)) == sum_accounts(s) - s[i].balance + e.balance,
    decreases i,
{
    if i == 0 {
        assert(s.update(0, e).skip(1) =~= s.skip(1));
        assert(s.update(0, e)[0] == e);
    } else {
        assert(s.update(i, e).skip(1) =~= s.skip(1).update(i - 1, e));
        lemma_sum_accounts_update(s.skip(1), i - 1, e);
        assert(s.update(i, e)[0] == s[0]);
    }
}

proof fn lemma_sum_accounts_push(s: Seq<AccountEntry>, e: AccountEntry)
    ensures
        sum_accounts(s.push(e)) == sum_accounts(s) + e.balance,
    decreases s.len(),
{
    if s.len() == 0 {
        assert(s.push(e)[0] == e);
        assert(s.push(e).skip(1) =~= s);
    } else {
        assert(s.push(e).skip(1) =~= s.skip(1).push(e));
        lemma_sum_accounts_push(s.skip(1), e);
        assert(s.push(e)[0] == s[0]);
    }
}

proof fn lemma_bal_le_sum(s: Seq<AccountEntry>, id: u64)
    ensures
        bal_in(s, id) <= sum_accounts(s),
        sum_accounts(s) >= 0,
    decreases s.len(),
{
    if s.len() > 0 {
        lemma_bal_le_sum(s.skip(1), id);
    }
}

proof fn lemma_vault_push(s: Seq<VaultSlot>, slot: VaultSlot)
    requires
        forall|j: int| 0 <= j < s.len() ==> s[j].address@ != slot.address@,
    ensures
        vault_find(s.push(slot), slot.address@) == Some(slot.vault),
        forall|a: Seq<u8>| a != slot.address@ ==> vault_find(s.push(slot), a) == vault_find(s, a),
    decreases s.len(),
{
    if s.len() == 0 {
        assert(s.push(slot)[0] == slot);
        assert forall|a: Seq<u8>| a != slot.address@ implies vault_find(s.push(slot), a)
            == vault_find(s, a) by {
            assert(s.push(slot).skip(1) =~= s);
        }
    } else {
        assert(s.push(slot).skip(1) =~= s.skip(1).push(slot));
        assert forall|j: int|
            0 <= j < s.skip(1).len() implies s.skip(1)[j].address@ != slot.address@ by {
            assert(s.skip(1)[j] == s[j + 1]);
        }
        lemma_vault_push(s.skip(1), slot);
        assert(s.push(slot)[0] == s[0]);
        assert(s[0].address@ != slot.address@);
        assert forall|a: Seq<u8>|
            a != slot.address@ implies vault_find(s.push(slot), a) == vault_find(s, a) by {
            if s[0].address@ != a {
                assert(vault_find(s.push(slot), a) == vault_find(s.skip(1).push(slot), a));
                assert(vault_find(s, a) == vault_find(s.skip(1), a));
            }
        }
    }
}

proof fn lemma_sum_vaults_push(s: Seq<VaultSlot>, slot: VaultSlot, deposit: u64)
    ensures
        sum_vaults(s.push(slot), deposit) == sum_vaults(s, deposit) + slot.vault.amount + deposit,
    decreases s.len(),
{
    if s.len() == 0 {
        assert(s.push(slot)[0] == slot);
        assert(s.push(slot).skip(1) =~= s);
    } else {
        assert(s.push(slot).skip(1) =~= s.skip(1).push(slot));
        lemma_sum_vaults_push(s.skip(1), slot, deposit);
        assert(s.push(slot)[0] == s[0]);
    }
}

proof fn lemma_vault_remove(s: Seq<VaultSlot>, i: int)
    requires
        0 <= i < s.len(),
        vaults_distinct(s),
    ensures
        vault_find(s.remove(i), s[i].address@) is None,
        forall|a: Seq<u8>|
            a != s[i].address@ ==> vault_find(s.remove(i), a) == vault_find(s, a),
    decreases i,
{
    if i == 0 {
        assert(s.remove(0) =~= s.skip(1));
        let rest = s.skip(1);
        lemma_vault_absent(rest, s[0].address@);
    } else {
        assert(s.remove(i).skip(1) =~= s.skip(1).remove(i - 1));
        assert forall|p: int, q: int|
            0 <= p < q < s.skip(1).len() implies s.skip(1)[p].address@ != s.skip(
            1,
        )[q].address@ by {
            assert(s.skip(1)[p] == s[p + 1]);
            assert(s.skip(1)[q] == s[q + 1]);
        }
        assert(s.skip(1)[i - 1] == s[i]);
        lemma_vault_remove(s.skip(1), i - 1);
        assert(s.remove(i)[0] == s[0]);
        assert(s[0].address@ != s[i].address@);
        assert forall|a: Seq<u8>|
            a != s[i].address@ implies vault_find(s.remove(i), a) == vault_find(s, a) by {
            if s[0].address@ != a {
                assert(vault_find(s.remove(i), a) == vault_find(s.skip(1).remove(i - 1), a));
                assert(vault_find(s, a) == vault_find(s.skip(1), a));
            }
        }
    }
}

proof fn lemma_vault_absent(s: Seq<VaultSlot>, addr: Seq<u8>)
    requires
        forall|j: int| 0 <= j < s.len() ==> s[j].address@ != addr,
    ensures
        vault_find(s, addr) is None,
    decreases s.len(),
{
    if s.len() > 0 {
        lemma_vault_absent(s.skip(1), addr);
    }
}

proof fn lemma_sum_vaults_remove(s: Seq<VaultSlot>, i: int, deposit: u64)
    requires
        0 <= i < s.len(),
    ensures
        sum_vaults(s.remove(i), deposit) == sum_vaults(s, deposit) - s[i].vault.amount - deposit,
    decreases i,
{
    if i == 0 {
        assert(s.remove(0) =~= s.skip(1));
    } else {
        assert(s.remove(i).skip(1) =~= s.skip(1).remove(i - 1));
        lemma_sum_vaults_remove(s.skip(1), i - 1, deposit);
        assert(s.remove(i)[0] == s[0]);
    }
}

proof fn lemma_vault_none_mismatch(s: Seq<VaultSlot>, addr: Seq<u8>)
    requires
        vault_find(s, addr) is None,
    ensures
        forall|j: int| 0 <= j < s.len() ==> s[j].address@ != addr,
    decreases s.len(),
{
    if s.len() > 0 {
        lemma_vault_none_mismatch(s.skip(1), addr);
        assert forall|j: int| 0 <= j < s.len() implies s[j].address@ != addr by {
            if j > 0 {
                assert(s.skip(1)[j - 1] == s[j]);
            }
        }
    }
}

pub(crate) proof fn lemma_vault_find_witness(s: Seq<VaultSlot>, addr: Seq<u8>, v: Vault)
    requires
        vault_find(s, addr) == Some(v),
    ensures
        exists|i: int| 0 <= i < s.len() && #[trigger] s[i].address@ == addr && s[i].vault == v,
    decreases s.len(),
{
    if s.len() > 0 && s[0].address@ == addr {
        assert(s[0].vault == v);
    } else {
        lemma_vault_find_witness(s.skip(1), addr, v);
        let j = choose|j: int|
            0 <= j < s.skip(1).len() && #[trigger] s.skip(1)[j].address@ == addr && s.skip(
                1,
            )[j].vault == v;
        assert(s[j + 1] == s.skip(1)[j]);
    }
}

proof fn lemma_sum_vaults_nonneg(s: Seq<VaultSlot>, deposit: u64)
    ensures
        sum_vaults(s, deposit) >= 0,
    decreases s.len(),
{
    if s.len() > 0 {
        lemma_sum_vaults_nonneg(s.skip(1), deposit);
    }
}

/// Whether the address derived from the triple and `nonce` is unoccupied.
pub open spec fn free_at(l: Ledger, depositor: u64, beneficiary: u64, unlock_time: i64, nonce: u8) -> bool {
    l.vault_at(derive_spec(depositor, beneficiary, unlock_time, nonce)) is None
}

/// The least nonce at or above `n` whose derived address is unoccupied.
pub open spec fn first_free_from(
    l: Ledger,
    depositor: u64,
    beneficiary: u64,
    unlock_time: i64,
    n: u8,
) -> Option<u8>
    decreases 255 - n,
{
    if free_at(l, depositor, beneficiary, unlock_time, n) {
        Some(n)
    } else if n == 255 {
        None
    } else {
        first_free_from(l, depositor, beneficiary, unlock_time, (n + 1) as u8)
    }
}

/// The outcome of `create_vault` on a given ledger: the allocated nonce, or
/// the exact error.  Funds are checked first; the allocator then picks the
/// least nonce whose derived address is free.
pub open spec fn create_result(
    l: Ledger,
    depositor: u64,
    beneficiary: u64,
    unlock_time: i64,
    amount: u64,
) -> Result<u8, VaultError> {
    if (l.bal(depositor) as int) < amount + l.storage_deposit {
        Err(VaultError::InsufficientFunds)
    } else {
        match first_free_from(l, depositor, beneficiary, unlock_time, 0u8) {
            Some(n) => Ok(n),
            None => Err(VaultError::AddressCollision),
        }
    }
}

/// The outcome of creation forced onto one specific nonce.
pub open spec fn create_at_result(
    l: Ledger,
    depositor: u64,
    beneficiary: u64,
    unlock_time: i64,
    amount: u64,
    nonce: u8,
) -> Result<u8, VaultError> {
    if (l.bal(depositor) as int) < amount + l.storage_deposit {
        Err(VaultError::InsufficientFunds)
    } else if !free_at(l, depositor, beneficiary, unlock_time, nonce) {
        Err(VaultError::AddressCollision)
    } else {
        Ok(nonce)
    }
}

/// How a successful creation transforms the ledger: the depositor pays the
/// amount plus the storage deposit, the record appears at the derived
/// address, nothing else moves, and no funds are created or destroyed.
pub open spec fn create_transition(
    pre: Ledger,
    post: Ledger,
    depositor: u64,
    beneficiary: u64,
    unlock_time: i64,
    amount: u64,
    nonce: u8,
) -> bool {
    let addr = derive_spec(depositor, beneficiary, unlock_time, nonce);
    &&& post.storage_deposit == pre.storage_deposit
    &&& post.bal(depositor) as int == pre.bal(depositor) - amount - pre.storage_deposit
    &&& forall|id: u64| id != depositor ==> post.bal(id) == pre.bal(id)
    &&& post.vault_at(addr) == Some(
        Vault { depositor, beneficiary, amount, unlock_time, derivation_nonce: nonce },
    )
    &&& forall|a: Seq<u8>| a != addr ==> post.vault_at(a) == pre.vault_at(a)
    &&& post.total() == pre.total()
    &&& post.wf()
}

/// The outcome of `withdraw_vault`: the record must exist at the re-derived
/// address, the caller must be the recorded beneficiary, the supplied
/// depositor and nonce must match the record, and the ledger time must have
/// reached the unlock time.
pub open spec fn withdraw_result(
    l: Ledger,
    caller: u64,
    depositor: u64,
    beneficiary: u64,
    unlock_time: i64,
    nonce: u8,
    now: i64,
) -> Result<(), VaultError> {
    match l.vault_at(derive_spec(depositor, beneficiary, unlock_time, nonce)) {
        None => Err(VaultError::NotFound),
        Some(v) => {
            if caller != v.beneficiary || depositor != v.depositor || nonce
                != v.derivation_nonce {
                Err(VaultError::WrongAccount)
            } else if now < v.unlock_time {
                Err(VaultError::HandsTooWeak)
            } else {
                Ok(())
            }
        },
    }
}

/// How a successful withdrawal transforms the ledger: the full amount moves
/// to the beneficiary, the storage deposit returns to the recorded depositor,
/// the record is destroyed, nothing else moves, and no funds are created or
/// destroyed.
pub open spec fn withdraw_transition(pre: Ledger, post: Ledger, v: Vault, addr: Seq<u8>) -> bool {
    &&& post.storage_deposit == pre.storage_deposit
    &&& post.vault_at(addr) is None
    &&& forall|a: Seq<u8>| a != addr ==> post.vault_at(a) == pre.vault_at(a)
    &&& if v.beneficiary == v.depositor {
        post.bal(v.beneficiary) as int == pre.bal(v.beneficiary) + v.amount
            + pre.storage_deposit
    } else {
        post.bal(v.beneficiary) as int == pre.bal(v.beneficiary) + v.amount && post.bal(
            v.depositor,
        ) as int == pre.bal(v.depositor) + pre.storage_deposit
    }
    &&& forall|id: u64| id != v.beneficiary && id != v.depositor ==> post.bal(id) == pre.bal(id)
    &&& post.total() == pre.total()
    &&& post.wf()
}

proof fn lemma_first_free_skip(
    l: Ledger,
    depositor: u64,
    beneficiary: u64,
    unlock_time: i64,
    j: u8,
    n: u8,
)
    requires
        j <= n,
        forall|k: u8| j <= k < n ==> !free_at(l, depositor, beneficiary, unlock_time, k),
    ensures
        first_free_from(l, depositor, beneficiary, unlock_time, j) == first_free_from(
            l,
            depositor,
            beneficiary,
            unlock_time,
            n,
        ),
    decreases n - j,
{
    if j < n {
        assert(!free_at(l, depositor, beneficiary, unlock_time, j));
        lemma_first_free_skip(l, depositor, beneficiary, unlock_time, (j + 1) as u8, n);
    }
}

/// Byte-for-byte equality of two addresses.
fn bytes_eq(a: &Vec<u8>, b: &Vec<u8>) -> (r: bool)
    ensures
        r == (a@ == b@),
{
    if a.len() != b.len() {
        return false;
    }
    let mut i: usize = 0;
    while i < a.len()
        invariant
            0 <= i <= a.len(),
            a@.len() == b@.len(),
            forall|j: int| 0 <= j < i ==> a@[j] == b@[j],
        decreases a.len() - i,
    {
        if a[i] != b[i] {
            return false;
        }
        i = i + 1;
    }
    proof {
        assert(a@ =~= b@);
    }
    true
}

impl Ledger {
    /// Index of the entry holding `id`, if the account has been seen.
    fn find_account(&self, id: u64) -> (r: Option<usize>)
        ensures
            match r {
                Some(i) => i < self.accounts@.len() && self.accounts@[i as int].id == id
                    && forall|j: int| 0 <= j < i ==> self.accounts@[j].id != id,
                None => forall|j: int| 0 <= j < self.accounts@.len() ==> self.accounts@[j].id != id,
            },
    {
        let mut i: usize = 0;
        while i < self.accounts.len()
            invariant
                0 <= i <= self.accounts@.len(),
                forall|j: int| 0 <= j < i ==> self.accounts@[j].id != id,
            decreases self.accounts@.len() - i,
        {
            if self.accounts[i].id == id {
                return Some(i);
            }
            i = i + 1;
        }
        None
    }

    /// Index of the vault stored at `addr`, if any.
    fn find_vault(&self, addr: &Vec<u8>) -> (r: Option<usize>)
        ensures
            match r {
                Some(i) => i < self.vaults@.len() && self.vaults@[i as int].address@ == addr@
                    && forall|j: int| 0 <= j < i ==> self.vaults@[j].address@ != addr@,
                None => forall|j: int|
                    0 <= j < self.vaults@.len() ==> self.vaults@[j].address@ != addr@,
            },
    {
        let mut i: usize = 0;
        while i < self.vaults.len()
            invariant
                0 <= i <= self.vaults@.len(),
                forall|j: int| 0 <= j < i ==> self.vaults@[j].address@ != addr@,
            decreases self.vaults@.len() - i,
        {
            if bytes_eq(&self.vaults[i].address, addr) {
                return Some(i);
            }
            i = i + 1;
        }
        None
    }

    /// The current balance of `id`.
    pub fn balance_of(&self, id: u64) -> (r: u64)
        ensures
            r == self.bal(id),
    {
        match self.find_account(id) {
            Some(i) => {
                proof {
                    lemma_bal_prefix(self.accounts@, i as int, id);
                }
                self.accounts[i].balance
            },
            None => {
                proof {
                    lemma_bal_prefix(self.accounts@, self.accounts@.len() as int, id);
                }
                0
            },
        }
    }

    /// Sets `id`'s balance to `new_balance`, leaving every other account, all
    /// vaults, and the deposit untouched.
    fn set_balance(&mut self, id: u64, new_balance: u64)
        requires
            accounts_distinct(old(self).accounts@),
        ensures
            accounts_distinct(final(self).accounts@),
            final(self).bal(id) == new_balance,
            forall|x: u64| x != id ==> final(self).bal(x) == old(self).bal(x),
            sum_accounts(final(self).accounts@) == sum_accounts(old(self).accounts@) - old(
                self,
            ).bal(id) + new_balance,
            final(self).vaults == old(self).vaults,
            final(self).storage_deposit == old(self).storage_deposit,
    {
        let entry = AccountEntry { id, balance: new_balance };
        match self.find_account(id) {
            Some(i) => {
                proof {
                    lemma_bal_prefix(self.accounts@, i as int, id);
                    lemma_bal_update(self.accounts@, i as int, entry);
                    lemma_sum_accounts_update(self.accounts@, i as int, entry);
                    assert(self.accounts@[i as int].balance == old(self).bal(id));
                }
                self.accounts.set(i, entry);
                proof {
                    assert forall|p: int, q: int|
                        0 <= p < q < self.accounts@.len() implies self.accounts@[p].id
                        != self.accounts@[q].id by {
                        assert(self.accounts@[p].id == old(self).accounts@[p].id);
                        assert(self.accounts@[q].id == old(self).accounts@[q].id);
                    }
                }
            },
            None => {
                proof {
                    lemma_bal_prefix(self.accounts@, self.accounts@.len() as int, id);
                    lemma_bal_push(self.accounts@, entry);
                    lemma_sum_accounts_push(self.accounts@, entry);
                }
                self.accounts.push(entry);
            },
        }
    }

    /// An empty ledger with the given per-vault storage deposit.
    pub fn new(storage_deposit: u64) -> (l: Ledger)
        ensures
            l.wf(),
            l.storage_deposit == storage_deposit,
            forall|id: u64| l.bal(id) == 0,
            forall|a: Seq<u8>| l.vault_at(a) is None,
            l.total() == 0,
    {
        let l = Ledger { storage_deposit, accounts: Vec::new(), vaults: Vec::new() };
        proof {
            assert forall|id: u64| l.bal(id) == 0 by {
                assert(l.accounts@.len() == 0);
            }
            assert forall|a: Seq<u8>| l.vault_at(a) is None by {
                assert(l.vaults@.len() == 0);
            }
        }
        l
    }

    /// Credits `amount` of fresh funds to `id`.
    ///
    /// The bound on the ledger's total keeps every later balance movement
    /// within the machine word; it is the only limit the store imposes.
    pub fn fund(&mut self, id: u64, amount: u64)
        requires
            old(self).wf(),
            old(self).total() + amount <= u64::MAX,
        ensures
            final(self).wf(),
            final(self).storage_deposit == old(self).storage_deposit,
            final(self).bal(id) as int == old(self).bal(id) + amount,
            forall|x: u64| x != id ==> final(self).bal(x) == old(self).bal(x),
            forall|a: Seq<u8>| final(self).vault_at(a) == old(self).vault_at(a),
            final(self).total() == old(self).total() + amount,
    {
        proof {
            lemma_bal_le_sum(self.accounts@, id);
            lemma_sum_vaults_nonneg(self.vaults@, self.storage_deposit);
        }
        let current: u64 = self.balance_of(id);
        self.set_balance(id, current + amount);
    }

    /// All funds the ledger holds: balances plus vault amounts and deposits.
    ///
    /// Creation and withdrawal both preserve this figure; only `fund` raises
    /// it, and only within the machine word.
    pub fn total_held(&self) -> (r: u64)
        requires
            self.wf(),
        ensures
            r as int == self.total(),
    {
        let mut acc: u64 = 0;
        let mut i: usize = 0;
        proof {
            assert(self.accounts@.skip(0) =~= self.accounts@);
            lemma_bal_le_sum(self.accounts@, 0);
            lemma_sum_vaults_nonneg(self.vaults@, self.storage_deposit);
        }
        while i < self.accounts.len()
            invariant
                self.wf(),
                0 <= i <= self.accounts@.len(),
                acc + sum_accounts(self.accounts@.skip(i as int)) == sum_accounts(self.accounts@),
            decreases self.accounts@.len() - i,
        {
            proof {
                assert(self.accounts@.skip(i as int)[0] == self.accounts@[i as int]);
                assert(self.accounts@.skip(i as int).skip(1) =~= self.accounts@.skip(i as int + 1));
                lemma_bal_le_sum(self.accounts@.skip(i as int + 1), 0);
                lemma_bal_le_sum(self.accounts@, 0);
                lemma_sum_vaults_nonneg(self.vaults@, self.storage_deposit);
            }
            acc = acc + self.accounts[i].balance;
            i = i + 1;
        }
        let mut j: usize = 0;
        proof {
            assert(self.vaults@.skip(0) =~= self.vaults@);
        }
        while j < self.vaults.len()
            invariant
                self.wf(),
                0 <= j <= self.vaults@.len(),
                acc + sum_vaults(self.vaults@.skip(j as int), self.storage_deposit)
                    == self.total(),
            decreases self.vaults@.len() - j,
        {
            proof {
                assert(self.vaults@.skip(j as int)[0] == self.vaults@[j as int]);
                assert(self.vaults@.skip(j as int).skip(1) =~= self.vaults@.skip(j as int + 1));
                lemma_sum_vaults_nonneg(
                    self.vaults@.skip(j as int + 1),
                    self.storage_deposit,
                );
            }
            acc = acc + self.vaults[j].vault.amount;
            acc = acc + self.storage_deposit;
            j = j + 1;
        }
        acc
    }

    /// The vault stored at `address`, if one exists.
    pub fn vault_record(&self, address: &Vec<u8>) -> (r: Option<Vault>)
        ensures
            r == self.vault_at(address@),
    {
        match self.find_vault(address) {
            Some(i) => {
                proof {
                    lemma_vault_prefix(self.vaults@, i as int, address@);
                    assert(self.vaults@.skip(i as int)[0] == self.vaults@[i as int]);
                }
                Some(self.vaults[i].vault)
            },
            None => {
                proof {
                    lemma_vault_prefix(self.vaults@, self.vaults@.len() as int, address@);
                }
                None
            },
        }
    }

    /// Debits the depositor and writes the vault record at the address the
    /// given nonce derives; creation and funding are one atomic step.
    fn insert_vault(
        &mut self,
        depositor: u64,
        beneficiary: u64,
        unlock_time: i64,
        amount: u64,
        nonce: u8,
    ) -> (h: VaultHandle)
        requires
            old(self).wf(),
            old(self).bal(depositor) as int >= amount + old(self).storage_deposit,
            free_at(*old(self), depositor, beneficiary, unlock_time, nonce),
        ensures
            final(self).wf(),
            h.nonce == nonce,
            h.address@ == derive_spec(depositor, beneficiary, unlock_time, nonce),
            create_transition(
                *old(self),
                *final(self),
                depositor,
                beneficiary,
                unlock_time,
                amount,
                nonce,
            ),
    {
        let bal: u64 = self.balance_of(depositor);
        let new_bal: u64 = bal - amount - self.storage_deposit;
        self.set_balance(depositor, new_bal);
        let addr: Vec<u8> = derive_address(depositor, beneficiary, unlock_time, nonce);
        let vault = Vault { depositor, beneficiary, amount, unlock_time, derivation_nonce: nonce };
        proof {
            lemma_vault_none_mismatch(self.vaults@, addr@);
        }
        let ghost mid: Ledger = *self;
        let slot = VaultSlot { address: addr, vault };
        proof {
            lemma_vault_push(mid.vaults@, slot);
            lemma_sum_vaults_push(mid.vaults@, slot, mid.storage_deposit);
        }
        self.vaults.push(slot);
        proof {
            assert forall|p: int, q: int|
                0 <= p < q < self.vaults@.len() implies self.vaults@[p].address@
                != self.vaults@[q].address@ by {
                assert(self.vaults@ == mid.vaults@.push(slot));
                if q < mid.vaults@.len() {
                    assert(self.vaults@[p] == mid.vaults@[p]);
                    assert(self.vaults@[q] == mid.vaults@[q]);
                } else {
                    assert(self.vaults@[p] == mid.vaults@[p]);
                    assert(self.vaults@[q] == slot);
                }
            }
            assert forall|p: int|
                0 <= p < self.vaults@.len() implies self.vaults@[p].address@ == derive_spec(
                self.vaults@[p].vault.depositor,
                self.vaults@[p].vault.beneficiary,
                self.vaults@[p].vault.unlock_time,
                self.vaults@[p].vault.derivation_nonce,
            ) by {
                if p < mid.vaults@.len() {
                    assert(self.vaults@[p] == mid.vaults@[p]);
                } else {
                    assert(self.vaults@[p] == slot);
                }
            }
        }
        let out: Vec<u8> = derive_address(depositor, beneficiary, unlock_time, nonce);
        VaultHandle { address: out, nonce }
    }

    /// Creates a vault: derives an address from the triple with the least
    /// free nonce, debits the depositor by `amount` plus the storage deposit,
    /// and records the vault's immutable fields.
    ///
    /// Fails with `InsufficientFunds` exactly when the depositor's balance is
    /// short, and with `AddressCollision` exactly when every candidate nonce
    /// derives an occupied address; any failure leaves the ledger untouched.
    #[verifier::loop_isolation(false)]
    pub fn create_vault(
        &mut self,
        depositor: u64,
        beneficiary: u64,
        unlock_time: i64,
        amount: u64,
    ) -> (r: Result<VaultHandle, VaultError>)
        requires
            old(self).wf(),
        ensures
            final(self).wf(),
            (match r {
                Ok(h) => {
                    &&& create_result(*old(self), depositor, beneficiary, unlock_time, amount)
                        == Ok::<u8, VaultError>(h.nonce)
                    &&& h.address@ == derive_spec(depositor, beneficiary, unlock_time, h.nonce)
                    &&& create_transition(
                        *old(self),
                        *final(self),
                        depositor,
                        beneficiary,
                        unlock_time,
                        amount,
                        h.nonce,
                    )
                },
                Err(e) => {
                    &&& create_result(*old(self), depositor, beneficiary, unlock_time, amount)
                        == Err::<u8, VaultError>(e)
                    &&& *final(self) == *old(self)
                },
            }),
    {
        let bal: u64 = self.balance_of(depositor);
        if bal < amount || bal - amount < self.storage_deposit {
            return Err(VaultError::InsufficientFunds);
        }
        let mut n: usize = 0;
        while n < 256
            invariant
                0 <= n <= 256,
                *self == *old(self),
                forall|k: u8|
                    (k as int) < (n as int) ==> !free_at(
                        *old(self),
                        depositor,
                        beneficiary,
                        unlock_time,
                        k,
                    ),
            decreases 256 - n,
        {
            let nonce: u8 = n as u8;
            let addr: Vec<u8> = derive_address(depositor, beneficiary, unlock_time, nonce);
            match self.find_vault(&addr) {
                None => {
                    proof {
                        lemma_vault_prefix(self.vaults@, self.vaults@.len() as int, addr@);
                        lemma_first_free_skip(
                            *old(self),
                            depositor,
                            beneficiary,
                            unlock_time,
                            0u8,
                            nonce,
                        );
                    }
                    let h = self.insert_vault(depositor, beneficiary, unlock_time, amount, nonce);
                    return Ok(h);
                },
                Some(i) => {
                    proof {
                        lemma_vault_prefix(self.vaults@, i as int, addr@);
                        assert(self.vaults@.skip(i as int)[0] == self.vaults@[i as int]);
                        assert(!free_at(*old(self), depositor, beneficiary, unlock_time, nonce));
                    }
                },
            }
            n = n + 1;
        }
        proof {
            lemma_first_free_skip(*old(self), depositor, beneficiary, unlock_time, 0u8, 255u8);
            assert(!free_at(*old(self), depositor, beneficiary, unlock_time, 255u8));
        }
        Err(VaultError::AddressCollision)
    }

    /// Creates a vault at the address the supplied nonce derives, refusing an
    /// occupied address with `AddressCollision` rather than overwriting it.
    pub fn create_vault_at_nonce(
        &mut self,
        depositor: u64,
        beneficiary: u64,
        unlock_time: i64,
        amount: u64,
        nonce: u8,
    ) -> (r: Result<VaultHandle, VaultError>)
        requires
            old(self).wf(),
        ensures
            final(self).wf(),
            (match r {
                Ok(h) => {
                    &&& create_at_result(
                        *old(self),
                        depositor,
                        beneficiary,
                        unlock_time,
                        amount,
                        nonce,
                    ) == Ok::<u8, VaultError>(nonce)
                    &&& h.nonce == nonce
                    &&& h.address@ == derive_spec(depositor, beneficiary, unlock_time, nonce)
                    &&& create_transition(
                        *old(self),
                        *final(self),
                        depositor,
                        beneficiary,
                        unlock_time,
                        amount,
                        nonce,
                    )
                },
                Err(e) => {
                    &&& create_at_result(
                        *old(self),
                        depositor,
                        beneficiary,
                        unlock_time,
                        amount,
                        nonce,
                    ) == Err::<u8, VaultError>(e)
                    &&& *final(self) == *old(self)
                },
            }),
    {
        let bal: u64 = self.balance_of(depositor);
        if bal < amount || bal - amount < self.storage_deposit {
            return Err(VaultError::InsufficientFunds);
        }
        let addr: Vec<u8> = derive_address(depositor, beneficiary, unlock_time, nonce);
        match self.find_vault(&addr) {
            Some(i) => {
                proof {
                    lemma_vault_prefix(self.vaults@, i as int, addr@);
                    assert(self.vaults@.skip(i as int)[0] == self.vaults@[i as int]);
                }
                Err(VaultError::AddressCollision)
            },
            None => {
                proof {
                    lemma_vault_prefix(self.vaults@, self.vaults@.len() as int, addr@);
                }
                let h = self.insert_vault(depositor, beneficiary, unlock_time, amount, nonce);
                Ok(h)
            },
        }
    }

    /// Withdraws a vault: re-derives the address from the triple and nonce,
    /// verifies the caller is the recorded beneficiary and that `now` has
    /// reached the unlock time, then pays the full amount to the beneficiary,
    /// refunds the storage deposit to the recorded depositor, and destroys
    /// the record, all atomically.
    ///
    /// Fails with `NotFound` exactly when no vault exists at the derived
    /// address (never created, or already withdrawn), with `WrongAccount`
    /// exactly when the caller, supplied depositor, or nonce does not match
    /// the record, and with `HandsTooWeak` exactly when `now` is strictly
    /// before the unlock time; any failure leaves the ledger untouched.
    pub fn withdraw_vault(
        &mut self,
        caller: u64,
        depositor: u64,
        beneficiary: u64,
        unlock_time: i64,
        nonce: u8,
        now: i64,
    ) -> (r: Result<(), VaultError>)
        requires
            old(self).wf(),
        ensures
            final(self).wf(),
            r == withdraw_result(
                *old(self),
                caller,
                depositor,
                beneficiary,
                unlock_time,
                nonce,
                now,
            ),
            r is Err ==> *final(self) == *old(self),
            r is Ok ==> withdraw_transition(
                *old(self),
                *final(self),
                old(self).vault_at(
                    derive_spec(depositor, beneficiary, unlock_time, nonce),
                ).unwrap(),
                derive_spec(depositor, beneficiary, unlock_time, nonce),
            ),
    {
        let addr: Vec<u8> = derive_address(depositor, beneficiary, unlock_time, nonce);
        let i: usize = match self.find_vault(&addr) {
            None => {
                proof {
                    lemma_vault_prefix(self.vaults@, self.vaults@.len() as int, addr@);
                }
                return Err(VaultError::NotFound);
            },
            Some(i) => i,
        };
        proof {
            lemma_vault_prefix(self.vaults@, i as int, addr@);
            assert(self.vaults@.skip(i as int)[0] == self.vaults@[i as int]);
        }
        let v: Vault = self.vaults[i].vault;
        if caller != v.beneficiary || depositor != v.depositor || nonce != v.derivation_nonce {
            return Err(VaultError::WrongAccount);
        }
        if now < v.unlock_time {
            return Err(VaultError::HandsTooWeak);
        }
        let ghost pre: Ledger = *self;
        proof {
            lemma_sum_vaults_remove(pre.vaults@, i as int, pre.storage_deposit);
            lemma_vault_remove(pre.vaults@, i as int);
            lemma_sum_vaults_nonneg(pre.vaults@.remove(i as int), pre.storage_deposit);
            lemma_bal_le_sum(pre.accounts@, caller);
            assert forall|p: int, q: int|
                0 <= p < q < pre.vaults@.remove(i as int).len() implies pre.vaults@.remove(
                i as int,
            )[p].address@ != pre.vaults@.remove(i as int)[q].address@ by {
                let s = pre.vaults@;
                let p0: int = if p < i { p } else { p + 1 };
                let q0: int = if q < i { q } else { q + 1 };
                assert(s.remove(i as int)[p] == s[p0]);
                assert(s.remove(i as int)[q] == s[q0]);
            }
            assert forall|p: int|
                0 <= p < pre.vaults@.remove(i as int).len() implies pre.vaults@.remove(
                i as int,
            )[p].address@ == derive_spec(
                pre.vaults@.remove(i as int)[p].vault.depositor,
                pre.vaults@.remove(i as int)[p].vault.beneficiary,
                pre.vaults@.remove(i as int)[p].vault.unlock_time,
                pre.vaults@.remove(i as int)[p].vault.derivation_nonce,
            ) by {
                let s = pre.vaults@;
                let p0: int = if p < i { p } else { p + 1 };
                assert(s.remove(i as int)[p] == s[p0]);
            }
        }
        let _slot: VaultSlot = self.vaults.remove(i);
        let bb: u64 = self.balance_of(caller);
        proof {
            lemma_bal_le_sum(self.accounts@, caller);
        }
        self.set_balance(caller, bb + v.amount);
        let db: u64 = self.balance_of(v.depositor);
        proof {
            lemma_bal_le_sum(self.accounts@, v.depositor);
            lemma_sum_vaults_nonneg(self.vaults@, self.storage_deposit);
        }
        self.set_balance(v.depositor, db + self.storage_deposit);
        Ok(())
    }
}

} // verus!
