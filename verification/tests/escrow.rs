use timelock_escrow::EscrowError;
use timelock_escrow::addr::derive_escrow_address;
use timelock_escrow::ledger::Ledger;
use timelock_escrow::ops::{initialize, release, Initialize, Release};
use solana_pubkey::Pubkey;
use std::collections::HashSet;

fn init_accounts(
    initializer: [u8; 32],
    beneficiary: [u8; 32],
    mint: [u8; 32],
) -> Initialize {
    Initialize { initializer, beneficiary, mint, depositor_funds_mint: mint }
}

fn release_accounts(payer: [u8; 32], mint: [u8; 32], escrow_address: [u8; 32]) -> Release {
    Release { payer, mint, escrow_address, vault_owner: escrow_address, vault_mint: mint }
}

#[test]
fn lock_and_release_cycle() {
    let initializer = [1u8; 32];
    let beneficiary = [2u8; 32];
    let mint = [3u8; 32];
    let payer = [4u8; 32];
    let release_ts: i64 = 1_000;

    let mut l = Ledger::new();
    assert!(l.mint_to(&initializer, &mint, 1_000));

    let (vault, bump) = derive_escrow_address(&initializer, &beneficiary, &mint, release_ts)
        .expect("derivation should succeed");
    assert_ne!(vault, initializer);
    assert_ne!(vault, beneficiary);
    assert_ne!(vault, mint);

    let r = initialize(&mut l, init_accounts(initializer, beneficiary, mint), 1_000, release_ts);
    assert_eq!(r, Ok(()));
    assert_eq!(l.balance(&initializer, &mint), 0);
    assert_eq!(l.balance(&vault, &mint), 1_000);

    let rec = l.record(&vault).expect("record should exist");
    assert_eq!(rec.initializer, initializer);
    assert_eq!(rec.beneficiary, beneficiary);
    assert_eq!(rec.mint, mint);
    assert_eq!(rec.release_ts, release_ts);
    assert_eq!(rec.bump, bump);

    // One tick early: rejected, balances untouched, for any submitter.
    let r = release(&mut l, release_accounts(payer, mint, vault), release_ts - 1);
    assert_eq!(r, Err(EscrowError::TimelockNotReached));
    let r = release(&mut l, release_accounts(initializer, mint, vault), release_ts - 1);
    assert_eq!(r, Err(EscrowError::TimelockNotReached));
    assert_eq!(l.balance(&vault, &mint), 1_000);
    assert_eq!(l.balance(&beneficiary, &mint), 0);

    // At the release time: the whole vault moves to the beneficiary.
    let r = release(&mut l, release_accounts(payer, mint, vault), release_ts);
    assert_eq!(r, Ok(()));
    assert_eq!(l.balance(&vault, &mint), 0);
    assert_eq!(l.balance(&beneficiary, &mint), 1_000);

    // A later second release is a harmless zero-amount move.
    let r = release(&mut l, release_accounts(payer, mint, vault), release_ts + 100);
    assert_eq!(r, Ok(()));
    assert_eq!(l.balance(&vault, &mint), 0);
    assert_eq!(l.balance(&beneficiary, &mint), 1_000);
}

#[test]
fn reinitialize_rejected() {
    let initializer = [5u8; 32];
    let beneficiary = [6u8; 32];
    let mint = [7u8; 32];
    let release_ts: i64 = 50;

    let mut l = Ledger::new();
    assert!(l.mint_to(&initializer, &mint, 500));

    let accts = init_accounts(initializer, beneficiary, mint);
    assert_eq!(initialize(&mut l, accts, 200, release_ts), Ok(()));
    // Identical tuple, any amount: always the same error.
    assert_eq!(initialize(&mut l, accts, 200, release_ts), Err(EscrowError::RecordAlreadyExists));
    assert_eq!(initialize(&mut l, accts, 1, release_ts), Err(EscrowError::RecordAlreadyExists));
    assert_eq!(
        initialize(&mut l, accts, 10_000, release_ts),
        Err(EscrowError::RecordAlreadyExists)
    );
    // A different tuple is a different agreement and succeeds.
    assert_eq!(initialize(&mut l, accts, 100, release_ts + 1), Ok(()));
}

#[test]
fn insufficient_funds_rejected() {
    let initializer = [8u8; 32];
    let beneficiary = [9u8; 32];
    let mint = [10u8; 32];

    let mut l = Ledger::new();
    assert!(l.mint_to(&initializer, &mint, 99));

    let r = initialize(&mut l, init_accounts(initializer, beneficiary, mint), 100, 0);
    assert_eq!(r, Err(EscrowError::InsufficientFunds));
    assert_eq!(l.balance(&initializer, &mint), 99);
}

#[test]
fn asset_type_mismatch_on_initialize() {
    let initializer = [11u8; 32];
    let beneficiary = [12u8; 32];
    let mint = [13u8; 32];
    let other_mint = [14u8; 32];

    let mut l = Ledger::new();
    assert!(l.mint_to(&initializer, &mint, 100));

    let accts = Initialize { initializer, beneficiary, mint, depositor_funds_mint: other_mint };
    assert_eq!(initialize(&mut l, accts, 100, 0), Err(EscrowError::AssetTypeMismatch));
    assert_eq!(l.balance(&initializer, &mint), 100);
}

#[test]
fn asset_type_mismatch_on_release() {
    let initializer = [15u8; 32];
    let beneficiary = [16u8; 32];
    let mint = [17u8; 32];
    let other_mint = [18u8; 32];
    let release_ts: i64 = 10;

    let mut l = Ledger::new();
    assert!(l.mint_to(&initializer, &mint, 100));
    assert_eq!(initialize(&mut l, init_accounts(initializer, beneficiary, mint), 100, release_ts), Ok(()));
    let (vault, _) = derive_escrow_address(&initializer, &beneficiary, &mint, release_ts).unwrap();

    // Wrong asset type presented for the operation.
    let mut accts = release_accounts([19u8; 32], other_mint, vault);
    accts.vault_mint = mint;
    assert_eq!(release(&mut l, accts, release_ts), Err(EscrowError::AssetTypeMismatch));
    // Vault sub-account of the wrong asset type presented.
    let mut accts = release_accounts([19u8; 32], mint, vault);
    accts.vault_mint = other_mint;
    assert_eq!(release(&mut l, accts, release_ts), Err(EscrowError::AssetTypeMismatch));
    assert_eq!(l.balance(&vault, &mint), 100);
}

#[test]
fn foreign_vault_rejected() {
    let initializer = [20u8; 32];
    let beneficiary = [21u8; 32];
    let mint = [22u8; 32];
    let release_ts: i64 = 10;

    let mut l = Ledger::new();
    assert!(l.mint_to(&initializer, &mint, 100));
    assert_eq!(initialize(&mut l, init_accounts(initializer, beneficiary, mint), 100, release_ts), Ok(()));
    let (vault, _) = derive_escrow_address(&initializer, &beneficiary, &mint, release_ts).unwrap();

    // A vault owned by someone other than the derived control address.
    let mut accts = release_accounts([23u8; 32], mint, vault);
    accts.vault_owner = [24u8; 32];
    assert_eq!(release(&mut l, accts, release_ts + 5), Err(EscrowError::UnauthorizedVault));
    assert_eq!(l.balance(&vault, &mint), 100);
    assert_eq!(l.balance(&beneficiary, &mint), 0);
}

#[test]
fn past_release_time_is_accepted() {
    // The release time is stored unvalidated: an escrow may be created
    // already releasable.
    let initializer = [25u8; 32];
    let beneficiary = [26u8; 32];
    let mint = [27u8; 32];
    let release_ts: i64 = -100;

    let mut l = Ledger::new();
    assert!(l.mint_to(&initializer, &mint, 40));
    assert_eq!(initialize(&mut l, init_accounts(initializer, beneficiary, mint), 40, release_ts), Ok(()));
    let (vault, _) = derive_escrow_address(&initializer, &beneficiary, &mint, release_ts).unwrap();
    assert_eq!(release(&mut l, release_accounts([28u8; 32], mint, vault), 0), Ok(()));
    assert_eq!(l.balance(&beneficiary, &mint), 40);
}

#[test]
fn supply_cap_enforced() {
    let a = [29u8; 32];
    let b = [30u8; 32];
    let mint = [31u8; 32];

    let mut l = Ledger::new();
    assert!(l.mint_to(&a, &mint, u64::MAX));
    assert!(!l.mint_to(&b, &mint, 1));
    assert_eq!(l.balance(&a, &mint), u64::MAX);
    assert_eq!(l.balance(&b, &mint), 0);
    // Another asset type has its own supply.
    let other = [32u8; 32];
    assert!(l.mint_to(&b, &other, 7));
    assert_eq!(l.balance(&b, &other), 7);
}

#[test]
fn derivation_matches_runtime() {
    let initializer = [33u8; 32];
    let beneficiary = [34u8; 32];
    let mint = [35u8; 32];
    for &release_ts in &[0i64, 1, -1, 1_700_000_000, i64::MIN, i64::MAX] {
        let (addr, bump) =
            derive_escrow_address(&initializer, &beneficiary, &mint, release_ts).unwrap();
        let pid = Pubkey::new_from_array([7u8; 32]);
        let seeds: [&[u8]; 5] = [
            b"escrow",
            &initializer,
            &beneficiary,
            &mint,
            &release_ts.to_le_bytes(),
        ];
        let (expected, expected_bump) = Pubkey::try_find_program_address(&seeds, &pid).unwrap();
        assert_eq!(addr, expected.to_bytes());
        assert_eq!(bump, expected_bump);
    }
}

// A simple linear congruential generator; good enough to randomize the
// identifying tuples.
fn lcg(state: &mut u64) -> u64 {
    *state = state.wrapping_mul(6364136223846793005).wrapping_add(1442695040888963407);
    *state
}

fn lcg_addr(state: &mut u64) -> [u8; 32] {
    let mut a = [0u8; 32];
    for chunk in a.chunks_mut(8) {
        chunk.copy_from_slice(&lcg(state).to_le_bytes());
    }
    a
}

#[test]
fn derived_addresses_distinct() {
    let mut state: u64 = 0x243F_6A88_85A3_08D3;
    let mut seen: HashSet<[u8; 32]> = HashSet::new();
    let trials: usize = 10_000;
    for _ in 0..trials {
        let initializer = lcg_addr(&mut state);
        let beneficiary = lcg_addr(&mut state);
        let mint = lcg_addr(&mut state);
        let release_ts = lcg(&mut state) as i64;
        let (addr, _) =
            derive_escrow_address(&initializer, &beneficiary, &mint, release_ts).unwrap();
        assert!(seen.insert(addr), "distinct tuples derived the same address");
    }
    assert_eq!(seen.len(), trials);
}

#[test]
fn two_escrows_coexist() {
    let initializer = [36u8; 32];
    let b1 = [37u8; 32];
    let b2 = [38u8; 32];
    let mint = [39u8; 32];

    let mut l = Ledger::new();
    assert!(l.mint_to(&initializer, &mint, 300));
    assert_eq!(initialize(&mut l, init_accounts(initializer, b1, mint), 100, 5), Ok(()));
    assert_eq!(initialize(&mut l, init_accounts(initializer, b2, mint), 200, 5), Ok(()));

    let (v1, _) = derive_escrow_address(&initializer, &b1, &mint, 5).unwrap();
    let (v2, _) = derive_escrow_address(&initializer, &b2, &mint, 5).unwrap();
    assert_ne!(v1, v2);
    assert_eq!(l.balance(&v1, &mint), 100);
    assert_eq!(l.balance(&v2, &mint), 200);

    assert_eq!(release(&mut l, release_accounts([40u8; 32], mint, v2), 6), Ok(()));
    assert_eq!(l.balance(&b2, &mint), 200);
    // The other escrow is untouched.
    assert_eq!(l.balance(&v1, &mint), 100);
    assert_eq!(l.balance(&b1, &mint), 0);
}
