//! The two escrow operations.
//!
//! `initialize` creates the record for an identifying tuple at its derived
//! address and moves the locked amount from the depositor's sub-account into
//! the vault owned by the derived control address.  `release` checks the
//! asset types, the time condition and the vault's ownership against the
//! stored record, then drains the whole vault into the beneficiary's
//! sub-account.  Each operation either commits all of its effects or fails
//! with a specific error and changes nothing.

use vstd::prelude::*;
use crate::EscrowError;
use crate::timelock_reached;
use crate::addr::derive_escrow_address;
use crate::addr::escrow_seeds;
use crate::addr::pda_result;
use crate::addr::program_id_spec;
use crate::ledger::Escrow;
use crate::ledger::EscrowSlot;
use crate::ledger::Ledger;
use crate::ledger::addr_eq;
use crate::ledger::balance_in;
use crate::ledger::lemma_push_record;
use crate::ledger::lemma_record_at_index;
use crate::ledger::present_rec;
use crate::ledger::record_consistent;
use crate::ledger::record_in;
use crate::ledger::supply_in;

verus! {

/// The identifying accounts of an initialization: who deposits, who may
/// claim, and in which asset type, plus the asset type of the depositor's
/// supplied source sub-account.
#[derive(Clone, Copy)]
pub struct Initialize {
    /// The depositing party, whose sub-account funds the escrow.
    pub initializer: [u8; 32],
    /// The party entitled to the funds after release; captured verbatim,
    /// no proof of control is required at funding time.
    pub beneficiary: [u8; 32],
    /// The asset type being locked.
    pub mint: [u8; 32],
    /// The asset type of the depositor's supplied source sub-account;
    /// must agree with `mint`.
    pub depositor_funds_mint: [u8; 32],
}

/// The identifying accounts of a release: who submits, which record, and
/// which vault sub-account is presented.
#[derive(Clone, Copy)]
pub struct Release {
    /// The submitter; pays for new storage but need not be the
    /// initializer or the beneficiary.
    pub payer: [u8; 32],
    /// The asset type presented; must agree with the record's.
    pub mint: [u8; 32],
    /// The storage address of the escrow record being released.
    pub escrow_address: [u8; 32],
    /// The owner of the vault sub-account presented; must equal the
    /// control address re-derived from the record.
    pub vault_owner: [u8; 32],
    /// The asset type of the vault sub-account presented.
    pub vault_mint: [u8; 32],
}

/// The exact outcome the initialization operation owes for a given
/// pre-state and inputs: each error comes on precisely the stated inputs,
/// and success on all others.
pub open spec fn initialize_result(
    pre: Ledger,
    accts: Initialize,
    amount: u64,
    release_ts: i64,
) -> Result<(), EscrowError> {
    match pda_result(
        escrow_seeds(accts.initializer@, accts.beneficiary@, accts.mint@, release_ts),
        program_id_spec(),
    ) {
        Option::None => Result::Err(EscrowError::AddressDerivationExhausted),
        Option::Some((addr, bump)) => if present_rec(pre.escrows@, addr) {
            Result::Err(EscrowError::RecordAlreadyExists)
        } else if accts.depositor_funds_mint@ != accts.mint@ {
            Result::Err(EscrowError::AssetTypeMismatch)
        } else if balance_in(pre.accounts@, accts.initializer@, accts.mint@) < amount {
            Result::Err(EscrowError::InsufficientFunds)
        } else {
            Result::Ok(())
        },
    }
}

/// The exact outcome the release operation owes for a given pre-state and
/// inputs, checked in order: asset types, time condition, vault ownership.
pub open spec fn release_result(pre: Ledger, accts: Release, current_time: i64) -> Result<
    (),
    EscrowError,
> {
    let rec = record_in(pre.escrows@, accts.escrow_address@);
    if accts.mint@ != rec.mint@ || accts.vault_mint@ != rec.mint@ {
        Result::Err(EscrowError::AssetTypeMismatch)
    } else if current_time < rec.release_ts {
        Result::Err(EscrowError::TimelockNotReached)
    } else if accts.vault_owner@ != accts.escrow_address@ {
        Result::Err(EscrowError::UnauthorizedVault)
    } else {
        Result::Ok(())
    }
}

/// What a successful release does to the balances: the vault is drained to
/// zero, the beneficiary receives exactly the pre-release vault balance, no
/// other balance changes, and no record changes.  When the beneficiary is
/// the vault's own control address the funds stay where they are.
pub open spec fn release_effects(
    pre: Ledger,
    post: Ledger,
    vault: Seq<u8>,
    beneficiary: Seq<u8>,
    mint: Seq<u8>,
) -> bool {
    &&& post.escrows@ == pre.escrows@
    &&& beneficiary != vault ==> balance_in(post.accounts@, vault, mint) == 0 && balance_in(
        post.accounts@,
        beneficiary,
        mint,
    ) == balance_in(pre.accounts@, beneficiary, mint) + balance_in(pre.accounts@, vault, mint)
    &&& beneficiary == vault ==> forall|o: Seq<u8>, m: Seq<u8>| #[trigger] balance_in(
        post.accounts@,
        o,
        m,
    ) == balance_in(pre.accounts@, o, m)
    &&& forall|o: Seq<u8>, m: Seq<u8>|
        !(o == vault && m == mint) && !(o == beneficiary && m == mint) ==> #[trigger] balance_in(
            post.accounts@,
            o,
            m,
        ) == balance_in(pre.accounts@, o, m)
}

/// Commits a new escrow: derives the record address and control address
/// from the identifying tuple, creates the record there if and only if none
/// exists, and moves `amount` from the depositor's sub-account into the
/// vault owned by the control address.  Any failure leaves the store
/// exactly as it was.
pub fn initialize(l: &mut Ledger, accts: Initialize, amount: u64, release_ts: i64) -> (r: Result<
    (),
    EscrowError,
>)
    requires
        old(l).wf(),
        amount > 0,
    ensures
        final(l).wf(),
        r == initialize_result(*old(l), accts, amount, release_ts),
        r is Err ==> *final(l) == *old(l),
        forall|m: Seq<u8>| #[trigger] supply_in(final(l).accounts@, m) == supply_in(
            old(l).accounts@,
            m,
        ),
        r is Ok ==> (pda_result(
            escrow_seeds(accts.initializer@, accts.beneficiary@, accts.mint@, release_ts),
            program_id_spec(),
        ) matches Some((addr, bump)) && {
            &&& final(l).escrows@.len() == old(l).escrows@.len() + 1
            &&& forall|i: int|
                0 <= i < old(l).escrows@.len() ==> final(l).escrows@[i] == old(l).escrows@[i]
            &&& final(l).escrows@.last().address@ == addr
            &&& final(l).escrows@.last().record == (Escrow {
                initializer: accts.initializer,
                beneficiary: accts.beneficiary,
                mint: accts.mint,
                release_ts: release_ts,
                bump: bump,
            })
            &&& final(l).has_record(addr)
            &&& final(l).record_at(addr) == final(l).escrows@.last().record
            &&& accts.initializer@ != addr ==> balance_in(final(l).accounts@, addr, accts.mint@)
                == balance_in(old(l).accounts@, addr, accts.mint@) + amount && balance_in(
                final(l).accounts@,
                accts.initializer@,
                accts.mint@,
            ) == balance_in(old(l).accounts@, accts.initializer@, accts.mint@) - amount
            &&& accts.initializer@ == addr ==> forall|o: Seq<u8>, m: Seq<u8>| #[trigger] balance_in(
                final(l).accounts@,
                o,
                m,
            ) == balance_in(old(l).accounts@, o, m)
            &&& forall|o: Seq<u8>, m: Seq<u8>|
                !(o == addr && m == accts.mint@) && !(o == accts.initializer@ && m
                    == accts.mint@) ==> #[trigger] balance_in(final(l).accounts@, o, m)
                    == balance_in(old(l).accounts@, o, m)
        }),
{
    let derived = derive_escrow_address(
        &accts.initializer,
        &accts.beneficiary,
        &accts.mint,
        release_ts,
    );
    let (addr, bump) = match derived {
        Option::None => {
            return Result::Err(EscrowError::AddressDerivationExhausted);
        },
        Option::Some(p) => p,
    };
    if l.record(&addr).is_some() {
        return Result::Err(EscrowError::RecordAlreadyExists);
    }
    if !addr_eq(&accts.depositor_funds_mint, &accts.mint) {
        return Result::Err(EscrowError::AssetTypeMismatch);
    }
    let bal = l.balance(&accts.initializer, &accts.mint);
    if bal < amount {
        return Result::Err(EscrowError::InsufficientFunds);
    }
    let slot = EscrowSlot {
        address: addr,
        record: Escrow {
            initializer: accts.initializer,
            beneficiary: accts.beneficiary,
            mint: accts.mint,
            release_ts: release_ts,
            bump: bump,
        },
    };
    let ghost e0 = l.escrows@;
    proof {
        lemma_push_record(e0, slot);
    }
    l.escrows.push(slot);
    proof {
        assert forall|i: int| 0 <= i < l.escrows@.len() implies record_consistent(
            #[trigger] l.escrows@[i],
        ) by {
            if i < e0.len() {
                assert(l.escrows@[i] == e0[i]);
                assert(record_consistent(e0[i]));
            } else {
                assert(l.escrows@[i] == slot);
            }
        }
    }
    let t = l.transfer(&accts.initializer, &addr, &accts.mint, amount);
    match t {
        Result::Ok(()) => Result::Ok(()),
        Result::Err(e) => {
            proof {
                assert(false);
            }
            Result::Err(e)
        },
    }
}

/// Releases an escrow: validates the presented asset types against the
/// record, the time condition against the trusted current time, and the
/// presented vault's owner against the re-derived control address, then
/// drains the whole vault into the beneficiary's sub-account (created if
/// absent, paid for by the submitter).  Draining an already-empty vault
/// succeeds as a zero-amount move.  Any failure leaves the store exactly
/// as it was.
pub fn release(l: &mut Ledger, accts: Release, current_time: i64) -> (r: Result<(), EscrowError>)
    requires
        old(l).wf(),
        old(l).has_record(accts.escrow_address@),
    ensures
        final(l).wf(),
        final(l).escrows@ == old(l).escrows@,
        r == release_result(*old(l), accts, current_time),
        r is Err ==> *final(l) == *old(l),
        forall|m: Seq<u8>| #[trigger] supply_in(final(l).accounts@, m) == supply_in(
            old(l).accounts@,
            m,
        ),
        r is Ok ==> release_effects(
            *old(l),
            *final(l),
            accts.escrow_address@,
            old(l).record_at(accts.escrow_address@).beneficiary@,
            old(l).record_at(accts.escrow_address@).mint@,
        ),
{
    let rec = match l.record(&accts.escrow_address) {
        Option::Some(rec) => rec,
        Option::None => {
            proof {
                assert(false);
            }
            return Result::Err(EscrowError::AssetTypeMismatch);
        },
    };
    if !(addr_eq(&accts.mint, &rec.mint) && addr_eq(&accts.vault_mint, &rec.mint)) {
        return Result::Err(EscrowError::AssetTypeMismatch);
    }
    if !timelock_reached(current_time, rec.release_ts) {
        return Result::Err(EscrowError::TimelockNotReached);
    }
    proof {
        let k = choose|k: int|
            0 <= k < l.escrows@.len() && l.escrows@[k].address@ == accts.escrow_address@;
        lemma_record_at_index(l.escrows@, k);
        assert(record_consistent(l.escrows@[k]));
    }
    let derived = derive_escrow_address(
        &rec.initializer,
        &rec.beneficiary,
        &rec.mint,
        rec.release_ts,
    );
    let control = match derived {
        Option::Some(p) => p.0,
        Option::None => {
            proof {
                assert(false);
            }
            return Result::Err(EscrowError::AddressDerivationExhausted);
        },
    };
    if !addr_eq(&accts.vault_owner, &control) {
        return Result::Err(EscrowError::UnauthorizedVault);
    }
    let amount = l.balance(&control, &rec.mint);
    let t = l.transfer(&control, &rec.beneficiary, &rec.mint, amount);
    match t {
        Result::Ok(()) => Result::Ok(()),
        Result::Err(e) => {
            proof {
                assert(false);
            }
            Result::Err(e)
        },
    }
}

/// Law: once a record exists for an identifying tuple, initialization for
/// that tuple is owed `RecordAlreadyExists`, whatever the amount.
pub proof fn lemma_reinitialize_rejected(
    pre: Ledger,
    accts: Initialize,
    amount: u64,
    release_ts: i64,
)
    requires
        pda_result(
            escrow_seeds(accts.initializer@, accts.beneficiary@, accts.mint@, release_ts),
            program_id_spec(),
        ) matches Some((addr, bump)) && pre.has_record(addr),
    ensures
        initialize_result(pre, accts, amount, release_ts) == Result::<(), EscrowError>::Err(
            EscrowError::RecordAlreadyExists,
        ),
{
}

/// Law: a release attempted before the stored release time is owed
/// `TimelockNotReached`, whoever submits it.
pub proof fn lemma_premature_release_rejected(pre: Ledger, accts: Release, current_time: i64)
    requires
        accts.mint@ == record_in(pre.escrows@, accts.escrow_address@).mint@,
        accts.vault_mint@ == record_in(pre.escrows@, accts.escrow_address@).mint@,
        current_time < record_in(pre.escrows@, accts.escrow_address@).release_ts,
    ensures
        release_result(pre, accts, current_time) == Result::<(), EscrowError>::Err(
            EscrowError::TimelockNotReached,
        ),
{
}

/// Law: a release presenting a vault whose owner is not the derived
/// control address is owed `UnauthorizedVault`, even once the time
/// condition holds.
pub proof fn lemma_foreign_vault_rejected(pre: Ledger, accts: Release, current_time: i64)
    requires
        accts.mint@ == record_in(pre.escrows@, accts.escrow_address@).mint@,
        accts.vault_mint@ == record_in(pre.escrows@, accts.escrow_address@).mint@,
        current_time >= record_in(pre.escrows@, accts.escrow_address@).release_ts,
        accts.vault_owner@ != accts.escrow_address@,
    ensures
        release_result(pre, accts, current_time) == Result::<(), EscrowError>::Err(
            EscrowError::UnauthorizedVault,
        ),
{
}

/// Law: releasing an already-drained vault moves nothing: a successful
/// release from a vault holding zero leaves every balance unchanged.
pub proof fn lemma_release_idempotent(
    pre: Ledger,
    post: Ledger,
    vault: Seq<u8>,
    beneficiary: Seq<u8>,
    mint: Seq<u8>,
)
    requires
        release_effects(pre, post, vault, beneficiary, mint),
        balance_in(pre.accounts@, vault, mint) == 0,
    ensures
        forall|o: Seq<u8>, m: Seq<u8>| #[trigger] balance_in(post.accounts@, o, m) == balance_in(
            pre.accounts@,
            o,
            m,
        ),
{
    if beneficiary != vault {
        assert forall|o: Seq<u8>, m: Seq<u8>| #[trigger] balance_in(post.accounts@, o, m)
            == balance_in(pre.accounts@, o, m) by {
            if o == vault && m == mint {
                assert(balance_in(post.accounts@, vault, mint) == 0);
            } else if o == beneficiary && m == mint {
            } else {
            }
        }
    }
}

} // verus!
