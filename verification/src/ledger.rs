//! The persistent state that the escrow operations act on.
//!
//! A `Ledger` holds the asset sub-accounts (one balance per owner and asset
//! type) and the escrow records (one per agreement, stored at its derived
//! address).  Its well-formedness invariant says that sub-account keys and
//! record addresses are unique, that every record sits at the address derived
//! from its own fields, and that the total supply of each asset type fits in
//! a balance word, so that moving funds between two sub-accounts can never
//! overflow.

use vstd::prelude::*;
use crate::addr::escrow_seeds;
use crate::addr::pda_result;
use crate::addr::program_id_spec;
use crate::EscrowError;

verus! {

/// The terms of one escrow agreement.  Set once at creation and immutable
/// thereafter; the locked balance lives in the vault sub-account owned by
/// the derived control address, not in the record.
#[derive(Clone, Copy)]
pub struct Escrow {
    pub initializer: [u8; 32],
    pub beneficiary: [u8; 32],
    pub mint: [u8; 32],
    pub release_ts: i64,
    pub bump: u8,
}

/// A sub-account: a storage slot holding a balance of one asset type for
/// one owner.
#[derive(Clone, Copy)]
pub struct TokenAccount {
    pub owner: [u8; 32],
    pub mint: [u8; 32],
    pub amount: u64,
}

/// One allocated escrow record together with its storage address.
#[derive(Clone, Copy)]
pub struct EscrowSlot {
    pub address: [u8; 32],
    pub record: Escrow,
}

/// The store of sub-accounts and escrow records.
pub struct Ledger {
    pub accounts: Vec<TokenAccount>,
    pub escrows: Vec<EscrowSlot>,
}

/// Whether a sub-account is the one keyed by the given owner and asset type.
pub open spec fn acct_is(a: TokenAccount, owner: Seq<u8>, mint: Seq<u8>) -> bool {
    a.owner@ == owner && a.mint@ == mint
}

/// The balance held for an owner in an asset type: the amount of the first
/// matching sub-account, or zero when none exists.
pub open spec fn balance_in(s: Seq<TokenAccount>, owner: Seq<u8>, mint: Seq<u8>) -> u64
    decreases s.len(),
{
    if s.len() == 0 {
        0u64
    } else if acct_is(s[0], owner, mint) {
        s[0].amount
    } else {
        balance_in(s.skip(1), owner, mint)
    }
}

/// Whether a sub-account exists for the given owner and asset type.
pub open spec fn present_in(s: Seq<TokenAccount>, owner: Seq<u8>, mint: Seq<u8>) -> bool {
    exists|i: int| 0 <= i < s.len() && acct_is(s[i], owner, mint)
}

/// The total amount of one asset type held across all sub-accounts.
pub open spec fn supply_in(s: Seq<TokenAccount>, mint: Seq<u8>) -> nat
    decreases s.len(),
{
    if s.len() == 0 {
        0
    } else {
        (if s[0].mint@ == mint {
            s[0].amount as nat
        } else {
            0
        }) + supply_in(s.skip(1), mint)
    }
}

/// No two sub-accounts share an owner and asset type.
pub open spec fn accounts_unique(s: Seq<TokenAccount>) -> bool {
    forall|i: int, j: int|
        0 <= i < j < s.len() ==> !(#[trigger] s[i].owner@ == #[trigger] s[j].owner@
            && s[i].mint@ == s[j].mint@)
}

/// Whether a record is stored at the given address.
pub open spec fn present_rec(s: Seq<EscrowSlot>, addr: Seq<u8>) -> bool {
    exists|i: int| 0 <= i < s.len() && #[trigger] s[i].address@ == addr
}

/// The record stored at an address: the first matching slot's record.
pub open spec fn record_in(s: Seq<EscrowSlot>, addr: Seq<u8>) -> Escrow
    decreases s.len(),
{
    if s.len() == 0 {
        vstd::pervasive::arbitrary()
    } else if s[0].address@ == addr {
        s[0].record
    } else {
        record_in(s.skip(1), addr)
    }
}

/// No two records share a storage address.
pub open spec fn records_unique(s: Seq<EscrowSlot>) -> bool {
    forall|i: int, j: int|
        0 <= i < j < s.len() ==> (#[trigger] s[i].address@) != (#[trigger] s[j].address@)
}

/// A record sits at the address derived from its own stored fields, with
/// its stored bump seed as the derivation proof.
pub open spec fn record_consistent(slot: EscrowSlot) -> bool {
    pda_result(
        escrow_seeds(
            slot.record.initializer@,
            slot.record.beneficiary@,
            slot.record.mint@,
            slot.record.release_ts,
        ),
        program_id_spec(),
    ) == Some((slot.address@, slot.record.bump))
}

/// Every stored record is self-consistent.
pub open spec fn records_consistent(s: Seq<EscrowSlot>) -> bool {
    forall|i: int| 0 <= i < s.len() ==> record_consistent(#[trigger] s[i])
}

impl Ledger {
    /// The balance held for an owner in an asset type.
    pub open spec fn balance_of(self, owner: Seq<u8>, mint: Seq<u8>) -> u64 {
        balance_in(self.accounts@, owner, mint)
    }

    /// Whether a record is stored at the given address.
    pub open spec fn has_record(self, addr: Seq<u8>) -> bool {
        present_rec(self.escrows@, addr)
    }

    /// The record stored at an address.
    pub open spec fn record_at(self, addr: Seq<u8>) -> Escrow {
        record_in(self.escrows@, addr)
    }

    /// Well-formedness: unique sub-account keys, unique and self-consistent
    /// record addresses, and a per-asset supply that fits in a balance word.
    pub open spec fn wf(self) -> bool {
        &&& accounts_unique(self.accounts@)
        &&& records_unique(self.escrows@)
        &&& records_consistent(self.escrows@)
        &&& forall|m: Seq<u8>| #[trigger] supply_in(self.accounts@, m) <= u64::MAX
    }
}

/// The balance for a key is the amount of its (unique) matching sub-account.
pub proof fn lemma_balance_at_index(s: Seq<TokenAccount>, i: int, owner: Seq<u8>, mint: Seq<u8>)
    requires
        accounts_unique(s),
        0 <= i < s.len(),
        acct_is(s[i], owner, mint),
    ensures
        balance_in(s, owner, mint) == s[i].amount,
        present_in(s, owner, mint),
    decreases s.len(),
{
    if i == 0 {
    } else {
        assert(!acct_is(s[0], owner, mint));
        let t = s.skip(1);
        assert forall|a: int, b: int|
            0 <= a < b < t.len() implies !(t[a].owner@ == t[b].owner@
            && t[a].mint@ == t[b].mint@) by {
            assert(t[a] == s[a + 1]);
            assert(t[b] == s[b + 1]);
        }
        assert(t[i - 1] == s[i]);
        lemma_balance_at_index(t, i - 1, owner, mint);
    }
}

/// An owner with no sub-account in an asset type holds a zero balance.
pub proof fn lemma_balance_absent(s: Seq<TokenAccount>, owner: Seq<u8>, mint: Seq<u8>)
    requires
        !present_in(s, owner, mint),
    ensures
        balance_in(s, owner, mint) == 0,
    decreases s.len(),
{
    if s.len() == 0 {
    } else {
        assert(!acct_is(s[0], owner, mint));
        let t = s.skip(1);
        assert(!present_in(t, owner, mint)) by {
            if present_in(t, owner, mint) {
                let k = choose|k: int| 0 <= k < t.len() && acct_is(t[k], owner, mint);
                assert(t[k] == s[k + 1]);
                assert(acct_is(s[k + 1], owner, mint));
            }
        }
        lemma_balance_absent(t, owner, mint);
    }
}

/// Two sub-account lists with pointwise equal keys agree on which keys are
/// present and on key uniqueness.
pub proof fn lemma_same_keys(s1: Seq<TokenAccount>, s2: Seq<TokenAccount>)
    requires
        s1.len() == s2.len(),
        accounts_unique(s1),
        forall|k: int|
            0 <= k < s1.len() ==> (#[trigger] s1[k].owner@) == s2[k].owner@
                && s1[k].mint@ == s2[k].mint@,
    ensures
        forall|o: Seq<u8>, m: Seq<u8>| #[trigger] present_in(s1, o, m) == present_in(s2, o, m),
        accounts_unique(s2),
{
    assert forall|o: Seq<u8>, m: Seq<u8>| #[trigger] present_in(s1, o, m) == present_in(
        s2,
        o,
        m,
    ) by {
        if present_in(s1, o, m) {
            let k = choose|k: int| 0 <= k < s1.len() && acct_is(s1[k], o, m);
            assert(s1[k].owner@ == s2[k].owner@ && s1[k].mint@ == s2[k].mint@);
            assert(acct_is(s2[k], o, m));
        }
        if present_in(s2, o, m) {
            let k = choose|k: int| 0 <= k < s2.len() && acct_is(s2[k], o, m);
            assert(s1[k].owner@ == s2[k].owner@ && s1[k].mint@ == s2[k].mint@);
            assert(acct_is(s1[k], o, m));
        }
    }
    assert forall|x: int, y: int| 0 <= x < y < s2.len() implies !(s2[x].owner@ == s2[y].owner@
        && s2[x].mint@ == s2[y].mint@) by {
        assert(s1[x].owner@ == s2[x].owner@ && s1[x].mint@ == s2[x].mint@);
        assert(s1[y].owner@ == s2[y].owner@ && s1[y].mint@ == s2[y].mint@);
    }
}

/// Replacing one sub-account by another with the same key changes exactly
/// that key's balance and shifts the asset's supply by the difference.
pub proof fn lemma_update_account(s: Seq<TokenAccount>, i: int, a: TokenAccount)
    requires
        accounts_unique(s),
        0 <= i < s.len(),
        a.owner@ == s[i].owner@,
        a.mint@ == s[i].mint@,
    ensures
        forall|o: Seq<u8>, m: Seq<u8>| #[trigger] balance_in(s.update(i, a), o, m) == (
        if acct_is(s[i], o, m) {
            a.amount
        } else {
            balance_in(s, o, m)
        }),
        forall|m: Seq<u8>|
            #[trigger] supply_in(s.update(i, a), m) + (if s[i].mint@ == m {
                s[i].amount as nat
            } else {
                0
            }) == supply_in(s, m) + (if a.mint@ == m {
                a.amount as nat
            } else {
                0
            }),
    decreases s.len(),
{
    let s2 = s.update(i, a);
    if i == 0 {
        assert(s2.skip(1) =~= s.skip(1));
        assert forall|o: Seq<u8>, m: Seq<u8>| #[trigger] balance_in(s2, o, m) == (
        if acct_is(s[0], o, m) {
            a.amount
        } else {
            balance_in(s, o, m)
        }) by {
            assert(acct_is(s2[0], o, m) == acct_is(s[0], o, m));
            assert(balance_in(s2.skip(1), o, m) == balance_in(s.skip(1), o, m));
        }
        assert forall|m: Seq<u8>|
            #[trigger] supply_in(s2, m) + (if s[0].mint@ == m {
                s[0].amount as nat
            } else {
                0
            }) == supply_in(s, m) + (if a.mint@ == m {
                a.amount as nat
            } else {
                0
            }) by {
            assert(s2[0] == a);
            assert(supply_in(s2.skip(1), m) == supply_in(s.skip(1), m));
        }
    } else {
        assert(s2[0] == s[0]);
        assert(s2.skip(1) =~= s.skip(1).update(i - 1, a));
        let t = s.skip(1);
        assert forall|x: int, y: int|
            0 <= x < y < t.len() implies !(t[x].owner@ == t[y].owner@
            && t[x].mint@ == t[y].mint@) by {
            assert(t[x] == s[x + 1]);
            assert(t[y] == s[y + 1]);
        }
        assert(t[i - 1] == s[i]);
        lemma_update_account(t, i - 1, a);
        let t2 = t.update(i - 1, a);
        assert forall|o: Seq<u8>, m: Seq<u8>| #[trigger] balance_in(s2, o, m) == (
        if acct_is(s[i], o, m) {
            a.amount
        } else {
            balance_in(s, o, m)
        }) by {
            assert(balance_in(s2.skip(1), o, m) == balance_in(t2, o, m));
            assert(balance_in(t2, o, m) == (if acct_is(t[i - 1], o, m) {
                a.amount
            } else {
                balance_in(t, o, m)
            }));
            if acct_is(s[i], o, m) {
                assert(!acct_is(s[0], o, m));
            }
        }
        assert forall|m: Seq<u8>|
            #[trigger] supply_in(s2, m) + (if s[i].mint@ == m {
                s[i].amount as nat
            } else {
                0
            }) == supply_in(s, m) + (if a.mint@ == m {
                a.amount as nat
            } else {
                0
            }) by {
            assert(supply_in(s2.skip(1), m) == supply_in(t2, m));
            assert(supply_in(t2, m) + (if t[i - 1].mint@ == m {
                t[i - 1].amount as nat
            } else {
                0
            }) == supply_in(t, m) + (if a.mint@ == m {
                a.amount as nat
            } else {
                0
            }));
        }
    }
}

/// Appending a sub-account for a fresh key adds that key with its amount and
/// leaves every other balance alone.
pub proof fn lemma_push_account(s: Seq<TokenAccount>, a: TokenAccount)
    requires
        accounts_unique(s),
        !present_in(s, a.owner@, a.mint@),
    ensures
        accounts_unique(s.push(a)),
        forall|o: Seq<u8>, m: Seq<u8>| #[trigger] balance_in(s.push(a), o, m) == (
        if acct_is(a, o, m) {
            a.amount
        } else {
            balance_in(s, o, m)
        }),
        forall|m: Seq<u8>|
            #[trigger] supply_in(s.push(a), m) == supply_in(s, m) + (if a.mint@ == m {
                a.amount as nat
            } else {
                0
            }),
        forall|o: Seq<u8>, m: Seq<u8>| #[trigger] present_in(s.push(a), o, m) == (present_in(
            s,
            o,
            m,
        ) || acct_is(a, o, m)),
    decreases s.len(),
{
    let s2 = s.push(a);
    assert forall|o: Seq<u8>, m: Seq<u8>| #[trigger] present_in(s2, o, m) == (present_in(s, o, m)
        || acct_is(a, o, m)) by {
        if present_in(s2, o, m) {
            let k = choose|k: int| 0 <= k < s2.len() && acct_is(s2[k], o, m);
            if k < s.len() {
                assert(acct_is(s[k], o, m));
            } else {
                assert(s2[k] == a);
            }
        }
        if present_in(s, o, m) {
            let k = choose|k: int| 0 <= k < s.len() && acct_is(s[k], o, m);
            assert(acct_is(s2[k], o, m));
        }
        if acct_is(a, o, m) {
            assert(acct_is(s2[s.len() as int], o, m));
        }
    }
    assert forall|x: int, y: int|
        0 <= x < y < s2.len() implies !(s2[x].owner@ == s2[y].owner@
        && s2[x].mint@ == s2[y].mint@) by {
        if y < s.len() {
        } else {
            assert(s2[y] == a);
            if s2[x].owner@ == a.owner@ && s2[x].mint@ == a.mint@ {
                assert(acct_is(s[x], a.owner@, a.mint@));
            }
        }
    }
    if s.len() == 0 {
        assert(s2.skip(1) =~= Seq::<TokenAccount>::empty());
        assert(s2[0] == a);
        assert forall|o: Seq<u8>, m: Seq<u8>| #[trigger] balance_in(s2, o, m) == (
        if acct_is(a, o, m) {
            a.amount
        } else {
            balance_in(s, o, m)
        }) by {
            assert(balance_in(s2.skip(1), o, m) == 0);
        }
        assert forall|m: Seq<u8>|
            #[trigger] supply_in(s2, m) == supply_in(s, m) + (if a.mint@ == m {
                a.amount as nat
            } else {
                0
            }) by {
            assert(supply_in(s2.skip(1), m) == 0);
        }
    } else {
        assert(s2[0] == s[0]);
        assert(s2.skip(1) =~= s.skip(1).push(a));
        let t = s.skip(1);
        assert forall|x: int, y: int|
            0 <= x < y < t.len() implies !(t[x].owner@ == t[y].owner@
            && t[x].mint@ == t[y].mint@) by {
            assert(t[x] == s[x + 1]);
            assert(t[y] == s[y + 1]);
        }
        assert(!present_in(t, a.owner@, a.mint@)) by {
            if present_in(t, a.owner@, a.mint@) {
                let k = choose|k: int| 0 <= k < t.len() && acct_is(t[k], a.owner@, a.mint@);
                assert(t[k] == s[k + 1]);
                assert(acct_is(s[k + 1], a.owner@, a.mint@));
            }
        }
        lemma_push_account(t, a);
        let t2 = t.push(a);
        assert forall|o: Seq<u8>, m: Seq<u8>| #[trigger] balance_in(s2, o, m) == (
        if acct_is(a, o, m) {
            a.amount
        } else {
            balance_in(s, o, m)
        }) by {
            assert(balance_in(s2.skip(1), o, m) == balance_in(t2, o, m));
            assert(balance_in(t2, o, m) == (if acct_is(a, o, m) {
                a.amount
            } else {
                balance_in(t, o, m)
            }));
            if acct_is(a, o, m) && acct_is(s[0], o, m) {
                assert(acct_is(s[0], a.owner@, a.mint@));
            }
        }
        assert forall|m: Seq<u8>|
            #[trigger] supply_in(s2, m) == supply_in(s, m) + (if a.mint@ == m {
                a.amount as nat
            } else {
                0
            }) by {
            assert(supply_in(s2.skip(1), m) == supply_in(t2, m));
            assert(supply_in(t2, m) == supply_in(t, m) + (if a.mint@ == m {
                a.amount as nat
            } else {
                0
            }));
        }
    }
}

/// No single balance exceeds the asset's total supply.
pub proof fn lemma_balance_le_supply(s: Seq<TokenAccount>, owner: Seq<u8>, mint: Seq<u8>)
    ensures
        balance_in(s, owner, mint) <= supply_in(s, mint),
    decreases s.len(),
{
    if s.len() == 0 {
    } else {
        lemma_balance_le_supply(s.skip(1), owner, mint);
    }
}

/// Compares two 32-byte identities.
pub fn addr_eq(a: &[u8; 32], b: &[u8; 32]) -> (r: bool)
    ensures
        r == (a@ == b@),
{
    let mut i: usize = 0;
    while i < 32
        invariant
            0 <= i <= 32,
            forall|k: int| 0 <= k < i ==> a@[k] == b@[k],
        decreases 32 - i,
    {
        if a[i] != b[i] {
            return false;
        }
        i += 1;
    }
    proof {
        assert(a@ =~= b@);
    }
    true
}

impl Ledger {
    /// An empty store: no sub-accounts, no records.
    pub fn new() -> (r: Ledger)
        ensures
            r.wf(),
            r.accounts@.len() == 0,
            r.escrows@.len() == 0,
    {
        let r = Ledger { accounts: Vec::new(), escrows: Vec::new() };
        proof {
            assert forall|m: Seq<u8>| #[trigger] supply_in(r.accounts@, m) <= u64::MAX by {
                assert(supply_in(r.accounts@, m) == 0);
            }
        }
        r
    }

    /// Looks up the sub-account index for an owner and asset type.
    fn find_account(&self, owner: &[u8; 32], mint: &[u8; 32]) -> (r: Option<usize>)
        ensures
            r matches Some(i) ==> i < self.accounts@.len() && acct_is(
                self.accounts@[i as int],
                owner@,
                mint@,
            ),
            r is None ==> !present_in(self.accounts@, owner@, mint@),
    {
        let mut i: usize = 0;
        while i < self.accounts.len()
            invariant
                0 <= i <= self.accounts@.len(),
                forall|k: int| 0 <= k < i ==> !acct_is(self.accounts@[k], owner@, mint@),
            decreases self.accounts@.len() - i,
        {
            let a = &self.accounts[i];
            if addr_eq(&a.owner, owner) && addr_eq(&a.mint, mint) {
                return Some(i);
            }
            i += 1;
        }
        proof {
            if present_in(self.accounts@, owner@, mint@) {
                let k = choose|k: int|
                    0 <= k < self.accounts@.len() && acct_is(self.accounts@[k], owner@, mint@);
            }
        }
        None
    }

    /// The balance held for an owner in an asset type; zero when no
    /// sub-account exists.
    pub fn balance(&self, owner: &[u8; 32], mint: &[u8; 32]) -> (r: u64)
        requires
            self.wf(),
        ensures
            r == balance_in(self.accounts@, owner@, mint@),
    {
        match self.find_account(owner, mint) {
            Some(i) => {
                proof {
                    lemma_balance_at_index(self.accounts@, i as int, owner@, mint@);
                }
                self.accounts[i].amount
            },
            None => {
                proof {
                    lemma_balance_absent(self.accounts@, owner@, mint@);
                }
                0
            },
        }
    }

    /// The total amount of one asset type across all sub-accounts.
    pub fn supply(&self, mint: &[u8; 32]) -> (r: u64)
        requires
            self.wf(),
        ensures
            r as nat == supply_in(self.accounts@, mint@),
    {
        let mut acc: u64 = 0;
        let mut i: usize = 0;
        proof {
            assert(self.accounts@.skip(0) =~= self.accounts@);
        }
        while i < self.accounts.len()
            invariant
                self.wf(),
                0 <= i <= self.accounts@.len(),
                acc + supply_in(self.accounts@.skip(i as int), mint@) == supply_in(
                    self.accounts@,
                    mint@,
                ),
            decreases self.accounts@.len() - i,
        {
            let a = &self.accounts[i];
            proof {
                assert(self.accounts@.skip(i as int)[0] == self.accounts@[i as int]);
                assert(self.accounts@.skip(i as int).skip(1) =~= self.accounts@.skip(i as int + 1));
                assert(supply_in(self.accounts@, mint@) <= u64::MAX);
            }
            if addr_eq(&a.mint, mint) {
                acc = acc + a.amount;
            }
            i += 1;
        }
        proof {
            assert(self.accounts@.skip(self.accounts@.len() as int) =~= Seq::<
                TokenAccount,
            >::empty());
            assert(supply_in(self.accounts@.skip(self.accounts@.len() as int), mint@) == 0);
        }
        acc
    }

    /// Resolves the sub-account for an owner and asset type, creating an
    /// empty one when absent.  No balance changes.
    fn get_or_create(&mut self, owner: &[u8; 32], mint: &[u8; 32]) -> (i: usize)
        requires
            old(self).wf(),
        ensures
            final(self).wf(),
            i < final(self).accounts@.len(),
            acct_is(final(self).accounts@[i as int], owner@, mint@),
            final(self).escrows@ == old(self).escrows@,
            forall|o: Seq<u8>, m: Seq<u8>| #[trigger] balance_in(final(self).accounts@, o, m)
                == balance_in(old(self).accounts@, o, m),
            forall|m: Seq<u8>| #[trigger] supply_in(final(self).accounts@, m) == supply_in(
                old(self).accounts@,
                m,
            ),
    {
        match self.find_account(owner, mint) {
            Some(i) => i,
            None => {
                let a = TokenAccount { owner: *owner, mint: *mint, amount: 0 };
                proof {
                    lemma_push_account(self.accounts@, a);
                    lemma_balance_absent(self.accounts@, owner@, mint@);
                }
                let i = self.accounts.len();
                self.accounts.push(a);
                i
            },
        }
    }

    /// Creates `amount` units of an asset type in an owner's sub-account,
    /// creating the sub-account if needed.  Refuses (and changes nothing)
    /// when the asset's total supply would no longer fit in a balance word.
    pub fn mint_to(&mut self, owner: &[u8; 32], mint: &[u8; 32], amount: u64) -> (ok: bool)
        requires
            old(self).wf(),
        ensures
            final(self).wf(),
            final(self).escrows@ == old(self).escrows@,
            ok == (supply_in(old(self).accounts@, mint@) + amount <= u64::MAX),
            !ok ==> *final(self) == *old(self),
            ok ==> balance_in(final(self).accounts@, owner@, mint@) == balance_in(
                old(self).accounts@,
                owner@,
                mint@,
            ) + amount,
            ok ==> forall|o: Seq<u8>, m: Seq<u8>|
                !(o == owner@ && m == mint@) ==> #[trigger] balance_in(
                    final(self).accounts@,
                    o,
                    m,
                ) == balance_in(old(self).accounts@, o, m),
    {
        let sup = self.supply(mint);
        if amount > u64::MAX - sup {
            return false;
        }
        let i = self.get_or_create(owner, mint);
        let ghost s1 = self.accounts@;
        let a = self.accounts[i];
        proof {
            lemma_balance_at_index(s1, i as int, owner@, mint@);
            lemma_balance_le_supply(s1, owner@, mint@);
        }
        let new_a = TokenAccount { owner: a.owner, mint: a.mint, amount: a.amount + amount };
        self.accounts[i] = new_a;
        proof {
            lemma_update_account(s1, i as int, new_a);
            lemma_same_keys(s1, self.accounts@);
        }
        true
    }

    /// Looks up the slot index of the record stored at an address.
    fn find_record_idx(&self, addr: &[u8; 32]) -> (r: Option<usize>)
        ensures
            r matches Some(i) ==> i < self.escrows@.len() && self.escrows@[i as int].address@
                == addr@,
            r is None ==> !present_rec(self.escrows@, addr@),
    {
        let mut i: usize = 0;
        while i < self.escrows.len()
            invariant
                0 <= i <= self.escrows@.len(),
                forall|k: int| 0 <= k < i ==> (#[trigger] self.escrows@[k].address@) != addr@,
            decreases self.escrows@.len() - i,
        {
            if addr_eq(&self.escrows[i].address, addr) {
                return Some(i);
            }
            i += 1;
        }
        proof {
            if present_rec(self.escrows@, addr@) {
                let k = choose|k: int|
                    0 <= k < self.escrows@.len() && self.escrows@[k].address@ == addr@;
            }
        }
        None
    }

    /// Reads the record stored at an address, if any.
    pub fn record(&self, addr: &[u8; 32]) -> (r: Option<Escrow>)
        requires
            self.wf(),
        ensures
            r matches Some(e) ==> self.has_record(addr@) && e == self.record_at(addr@),
            r is None ==> !self.has_record(addr@),
    {
        match self.find_record_idx(addr) {
            Some(i) => {
                proof {
                    lemma_record_at_index(self.escrows@, i as int);
                }
                Some(self.escrows[i].record)
            },
            None => None,
        }
    }

    /// The trusted-subroutine model of the asset transfer primitive: moves
    /// `amount` of an asset type between two owners' sub-accounts, creating
    /// the destination if needed.  Fails, changing nothing, exactly when the
    /// source balance is short; a zero-amount move always succeeds.
    pub fn transfer(&mut self, from: &[u8; 32], to: &[u8; 32], mint: &[u8; 32], amount: u64) -> (r:
        Result<(), EscrowError>)
        requires
            old(self).wf(),
        ensures
            final(self).wf(),
            final(self).escrows@ == old(self).escrows@,
            r is Err <==> balance_in(old(self).accounts@, from@, mint@) < amount,
            r is Err ==> r == Err::<(), EscrowError>(EscrowError::InsufficientFunds)
                && *final(self) == *old(self),
            r is Ok && from@ != to@ ==> balance_in(final(self).accounts@, from@, mint@)
                == balance_in(old(self).accounts@, from@, mint@) - amount && balance_in(
                final(self).accounts@,
                to@,
                mint@,
            ) == balance_in(old(self).accounts@, to@, mint@) + amount,
            r is Ok && from@ == to@ ==> forall|o: Seq<u8>, m: Seq<u8>| #[trigger] balance_in(
                final(self).accounts@,
                o,
                m,
            ) == balance_in(old(self).accounts@, o, m),
            forall|o: Seq<u8>, m: Seq<u8>|
                !(o == from@ && m == mint@) && !(o == to@ && m == mint@) ==> #[trigger] balance_in(
                    final(self).accounts@,
                    o,
                    m,
                ) == balance_in(old(self).accounts@, o, m),
            forall|m: Seq<u8>| #[trigger] supply_in(final(self).accounts@, m) == supply_in(
                old(self).accounts@,
                m,
            ),
    {
        let bal = self.balance(from, mint);
        if bal < amount {
            return Err(EscrowError::InsufficientFunds);
        }
        if addr_eq(from, to) {
            return Ok(());
        }
        let ghost s0 = self.accounts@;
        let i_to = self.get_or_create(to, mint);
        let ghost s1 = self.accounts@;
        match self.find_account(from, mint) {
            None => {
                proof {
                    lemma_balance_absent(s1, from@, mint@);
                }
                Ok(())
            },
            Some(i_from) => {
                let a_from = self.accounts[i_from];
                proof {
                    lemma_balance_at_index(s1, i_from as int, from@, mint@);
                }
                let new_from = TokenAccount {
                    owner: a_from.owner,
                    mint: a_from.mint,
                    amount: a_from.amount - amount,
                };
                self.accounts[i_from] = new_from;
                let ghost s2 = self.accounts@;
                proof {
                    lemma_update_account(s1, i_from as int, new_from);
                    lemma_same_keys(s1, s2);
                    assert(s2[i_to as int] == s1[i_to as int]);
                    lemma_balance_at_index(s2, i_to as int, to@, mint@);
                    lemma_balance_le_supply(s2, to@, mint@);
                    assert(supply_in(s2, mint@) + a_from.amount == supply_in(s1, mint@)
                        + new_from.amount);
                    assert(supply_in(s1, mint@) <= u64::MAX);
                }
                let a_to = self.accounts[i_to];
                let new_to = TokenAccount {
                    owner: a_to.owner,
                    mint: a_to.mint,
                    amount: a_to.amount + amount,
                };
                self.accounts[i_to] = new_to;
                let ghost s3 = self.accounts@;
                proof {
                    lemma_update_account(s2, i_to as int, new_to);
                    lemma_same_keys(s2, s3);
                    assert forall|o: Seq<u8>, m: Seq<u8>|
                        !(o == from@ && m == mint@) && !(o == to@ && m
                            == mint@) implies #[trigger] balance_in(s3, o, m) == balance_in(
                        s0,
                        o,
                        m,
                    ) by {
                        assert(balance_in(s3, o, m) == balance_in(s2, o, m));
                        assert(balance_in(s2, o, m) == balance_in(s1, o, m));
                        assert(balance_in(s1, o, m) == balance_in(s0, o, m));
                    }
                    assert(balance_in(s3, from@, mint@) == balance_in(s2, from@, mint@));
                    assert(balance_in(s2, from@, mint@) == new_from.amount);
                    assert(balance_in(s1, from@, mint@) == balance_in(s0, from@, mint@));
                    assert(balance_in(s3, to@, mint@) == new_to.amount);
                    assert(balance_in(s2, to@, mint@) == balance_in(s1, to@, mint@));
                    assert(balance_in(s1, to@, mint@) == balance_in(s0, to@, mint@));
                    assert forall|m: Seq<u8>| #[trigger] supply_in(s3, m) == supply_in(
                        s0,
                        m,
                    ) by {
                        assert(supply_in(s2, m) + (if s1[i_from as int].mint@ == m {
                            s1[i_from as int].amount as nat
                        } else {
                            0
                        }) == supply_in(s1, m) + (if new_from.mint@ == m {
                            new_from.amount as nat
                        } else {
                            0
                        }));
                        assert(supply_in(s3, m) + (if s2[i_to as int].mint@ == m {
                            s2[i_to as int].amount as nat
                        } else {
                            0
                        }) == supply_in(s2, m) + (if new_to.mint@ == m {
                            new_to.amount as nat
                        } else {
                            0
                        }));
                        assert(supply_in(s1, m) == supply_in(s0, m));
                    }
                }
                Ok(())
            },
        }
    }
}

/// The record at a stored slot's address is that slot's record.
pub proof fn lemma_record_at_index(s: Seq<EscrowSlot>, i: int)
    requires
        records_unique(s),
        0 <= i < s.len(),
    ensures
        present_rec(s, s[i].address@),
        record_in(s, s[i].address@) == s[i].record,
    decreases s.len(),
{
    if i == 0 {
    } else {
        assert(s[0].address@ != s[i].address@);
        let t = s.skip(1);
        assert forall|x: int, y: int|
            0 <= x < y < t.len() implies t[x].address@ != t[y].address@ by {
            assert(t[x] == s[x + 1]);
            assert(t[y] == s[y + 1]);
        }
        assert(t[i - 1] == s[i]);
        lemma_record_at_index(t, i - 1);
    }
}

/// Appending a record at a fresh address keeps every stored record readable
/// and makes the new one readable at its address.
pub proof fn lemma_push_record(s: Seq<EscrowSlot>, slot: EscrowSlot)
    requires
        records_unique(s),
        !present_rec(s, slot.address@),
    ensures
        records_unique(s.push(slot)),
        forall|addr: Seq<u8>| #[trigger] present_rec(s.push(slot), addr) == (present_rec(s, addr)
            || addr == slot.address@),
        forall|addr: Seq<u8>|
            present_rec(s, addr) ==> #[trigger] record_in(s.push(slot), addr) == record_in(
                s,
                addr,
            ),
        record_in(s.push(slot), slot.address@) == slot.record,
    decreases s.len(),
{
    let s2 = s.push(slot);
    assert forall|addr: Seq<u8>| #[trigger] present_rec(s2, addr) == (present_rec(s, addr) || addr
        == slot.address@) by {
        if present_rec(s2, addr) {
            let k = choose|k: int| 0 <= k < s2.len() && s2[k].address@ == addr;
            if k < s.len() {
                assert(s[k].address@ == addr);
            } else {
                assert(s2[k] == slot);
            }
        }
        if present_rec(s, addr) {
            let k = choose|k: int| 0 <= k < s.len() && s[k].address@ == addr;
            assert(s2[k].address@ == addr);
        }
        if addr == slot.address@ {
            assert(s2[s.len() as int].address@ == addr);
        }
    }
    assert forall|x: int, y: int|
        0 <= x < y < s2.len() implies s2[x].address@ != s2[y].address@ by {
        if y < s.len() {
        } else {
            assert(s2[y] == slot);
            if s2[x].address@ == slot.address@ {
                assert(s[x].address@ == slot.address@);
            }
        }
    }
    if s.len() == 0 {
        assert(s2[0] == slot);
        assert forall|addr: Seq<u8>|
            present_rec(s, addr) implies #[trigger] record_in(s2, addr) == record_in(
            s,
            addr,
        ) by {}
    } else {
        assert(s2[0] == s[0]);
        assert(s2.skip(1) =~= s.skip(1).push(slot));
        let t = s.skip(1);
        assert forall|x: int, y: int|
            0 <= x < y < t.len() implies t[x].address@ != t[y].address@ by {
            assert(t[x] == s[x + 1]);
            assert(t[y] == s[y + 1]);
        }
        assert(!present_rec(t, slot.address@)) by {
            if present_rec(t, slot.address@) {
                let k = choose|k: int| 0 <= k < t.len() && t[k].address@ == slot.address@;
                assert(t[k] == s[k + 1]);
                assert(s[k + 1].address@ == slot.address@);
            }
        }
        lemma_push_record(t, slot);
        let t2 = t.push(slot);
        assert(record_in(s2.skip(1), slot.address@) == record_in(t2, slot.address@));
        assert(record_in(s2, slot.address@) == slot.record);
        assert forall|addr: Seq<u8>|
            present_rec(s, addr) implies #[trigger] record_in(s2, addr) == record_in(
            s,
            addr,
        ) by {
            assert(record_in(s2.skip(1), addr) == record_in(t2, addr));
            if s[0].address@ != addr {
                let k = choose|k: int| 0 <= k < s.len() && s[k].address@ == addr;
                assert(t[k - 1] == s[k]);
                assert(t[k - 1].address@ == addr);
                assert(present_rec(t, addr));
                assert(record_in(t2, addr) == record_in(t, addr));
            }
        }
    }
}

} // verus!
