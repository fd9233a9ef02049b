//! Custody address derivation.
//!
//! An escrow agreement is identified by the tuple (initializer, beneficiary,
//! asset type, release time).  Its record storage address, which doubles as
//! the control address owning the vault, is derived deterministically from
//! that tuple by the runtime's program-derived-address search.  The
//! derivation depends on no secret: the release operation re-derives the
//! same address from the fields stored in the record.

use vstd::prelude::*;
use vstd::bytes::spec_u64_to_le_bytes;
use vstd::bytes::u64_to_le_bytes;
use anchor_lang::solana_program::pubkey::Pubkey;

verus! {

/// The fixed leading seed that namespaces every escrow derivation:
/// the bytes of "escrow".
pub open spec fn escrow_tag() -> Seq<u8> {
    seq![101u8, 115u8, 99u8, 114u8, 111u8, 119u8]
}

/// The unsigned 64-bit value with the same two's-complement bit pattern
/// as the given signed timestamp.
pub open spec fn unsigned_of(ts: i64) -> u64 {
    if ts >= 0 {
        ts as u64
    } else {
        (ts + 0x1_0000_0000_0000_0000) as u64
    }
}

/// The little-endian byte encoding of a release timestamp, as it enters
/// the derivation seeds.
pub open spec fn ts_le_bytes(ts: i64) -> Seq<u8> {
    spec_u64_to_le_bytes(unsigned_of(ts))
}

/// The seed list that identifies one escrow agreement: a fixed tag, the
/// three 32-byte identities, and the release time in little-endian bytes.
pub open spec fn escrow_seeds(
    initializer: Seq<u8>,
    beneficiary: Seq<u8>,
    mint: Seq<u8>,
    release_ts: i64,
) -> Seq<Seq<u8>> {
    seq![escrow_tag(), initializer, beneficiary, mint, ts_le_bytes(release_ts)]
}

/// The identity of this escrow program, fixed byte material that enters
/// every derivation.
pub open spec fn program_id_spec() -> Seq<u8> {
    Seq::new(32, |i: int| 7u8)
}

/// What the runtime's program-derived-address search returns for a seed
/// list and a program id: the derived address and its bump seed, or
/// nothing when the search is exhausted.
pub uninterp spec fn pda_result(seeds: Seq<Seq<u8>>, program_id: Seq<u8>) -> Option<(Seq<u8>, u8)>;

/// Relies on `Pubkey::try_find_program_address` of the solana-pubkey crate:
/// its result is a deterministic function of the seed byte strings and the
/// program id alone (a hash-based search over bump seeds), and it returns
/// `None` exactly when that search finds no usable candidate.
#[verifier::external_body]
fn try_find_pda(seeds: &Vec<Vec<u8>>, program_id: &[u8; 32]) -> (r: Option<([u8; 32], u8)>)
    ensures
        r matches Some((addr, bump)) ==> pda_result(seeds.deep_view(), program_id@)
            == Some((addr@, bump)),
        r is None ==> pda_result(seeds.deep_view(), program_id@) is None,
{
    let refs: Vec<&[u8]> = seeds.iter().map(|s| s.as_slice()).collect();
    let pid = Pubkey::new_from_array(*program_id);
    Pubkey::try_find_program_address(&refs, &pid).map(|(k, b)| (k.to_bytes(), b))
}

/// The identity of this escrow program as a value.
pub fn program_id() -> (r: [u8; 32])
    ensures
        r@ == program_id_spec(),
{
    let r: [u8; 32] = [7u8; 32];
    proof {
        assert(r@ =~= program_id_spec());
    }
    r
}

/// Copies a 32-byte identity into an owned byte vector.
fn bytes_of(a: &[u8; 32]) -> (r: Vec<u8>)
    ensures
        r@ == a@,
{
    let mut r: Vec<u8> = Vec::new();
    let mut i: usize = 0;
    while i < 32
        invariant
            0 <= i <= 32,
            r@.len() == i,
            forall|k: int| 0 <= k < i ==> r@[k] == a@[k],
        decreases 32 - i,
    {
        r.push(a[i]);
        i += 1;
    }
    proof {
        assert(r@ =~= a@);
    }
    r
}

/// Encodes a release timestamp as its eight little-endian bytes.
fn encode_release_ts(ts: i64) -> (r: Vec<u8>)
    ensures
        r@ == ts_le_bytes(ts),
{
    let u: u64 = if ts >= 0 {
        ts as u64
    } else {
        let shifted: i64 = (ts + 0x4000_0000_0000_0000) + 0x4000_0000_0000_0000;
        (shifted as u64) + 0x8000_0000_0000_0000
    };
    assert(u == unsigned_of(ts));
    u64_to_le_bytes(u)
}

/// Builds the executable seed list for one identifying tuple.
fn build_escrow_seeds(
    initializer: &[u8; 32],
    beneficiary: &[u8; 32],
    mint: &[u8; 32],
    release_ts: i64,
) -> (r: Vec<Vec<u8>>)
    ensures
        r.deep_view() == escrow_seeds(initializer@, beneficiary@, mint@, release_ts),
{
    let mut tag: Vec<u8> = Vec::new();
    tag.push(101u8);
    tag.push(115u8);
    tag.push(99u8);
    tag.push(114u8);
    tag.push(111u8);
    tag.push(119u8);
    proof {
        assert(tag@ =~= escrow_tag());
    }
    let mut r: Vec<Vec<u8>> = Vec::new();
    r.push(tag);
    r.push(bytes_of(initializer));
    r.push(bytes_of(beneficiary));
    r.push(bytes_of(mint));
    r.push(encode_release_ts(release_ts));
    proof {
        assert(r.deep_view() =~~= escrow_seeds(initializer@, beneficiary@, mint@, release_ts));
    }
    r
}

/// Derives the storage address of the escrow record for one identifying
/// tuple, together with the bump seed that proves the derivation.  The same
/// address is the control address that owns the escrow's vault.  Returns
/// `None` exactly when the derivation space is exhausted for the tuple.
pub fn derive_escrow_address(
    initializer: &[u8; 32],
    beneficiary: &[u8; 32],
    mint: &[u8; 32],
    release_ts: i64,
) -> (r: Option<([u8; 32], u8)>)
    ensures
        r matches Some((addr, bump)) ==> pda_result(
            escrow_seeds(initializer@, beneficiary@, mint@, release_ts),
            program_id_spec(),
        ) == Some((addr@, bump)),
        r is None ==> pda_result(
            escrow_seeds(initializer@, beneficiary@, mint@, release_ts),
            program_id_spec(),
        ) is None,
{
    let seeds = build_escrow_seeds(initializer, beneficiary, mint, release_ts);
    let pid = program_id();
    try_find_pda(&seeds, &pid)
}

} // verus!
