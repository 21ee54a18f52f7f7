//! Keyless, program-derived authority addresses.

use vstd::prelude::*;

verus! {

/// The bytes that open the seeds of every escrow address ("escrow").
pub open spec fn escrow_namespace() -> Seq<u8> {
    seq![101u8, 115u8, 99u8, 114u8, 111u8, 119u8]
}

/// Little-endian encoding of the low `k` bytes of `n`.
pub open spec fn le_bytes(n: nat, k: nat) -> Seq<u8>
    decreases k,
{
    if k == 0 {
        Seq::empty()
    } else {
        seq![(n % 256) as u8] + le_bytes(n / 256, (k - 1) as nat)
    }
}

/// The seeds an escrow address is derived from: namespace, maker, nonce.
pub open spec fn escrow_seeds(maker: Seq<u8>, seed: u64) -> Seq<Seq<u8>> {
    seq![escrow_namespace(), maker, le_bytes(seed as nat, 8)]
}

/// The address and bump that the ledger's derivation search yields for the
/// given seeds under the given program, if any candidate bump succeeds.
pub uninterp spec fn program_address(seeds: Seq<Seq<u8>>, program_id: Seq<u8>) -> Option<(Seq<u8>, u8)>;

/// The derived authority of the escrow of `(maker, seed)`.
pub open spec fn escrow_authority(program_id: Seq<u8>, maker: Seq<u8>, seed: u64) -> Option<(Seq<u8>, u8)> {
    program_address(escrow_seeds(maker, seed), program_id)
}

/// Relies on `Pubkey::try_find_program_address`, which hashes the seeds with
/// each bump from 255 down and returns the first off-curve result, or `None`;
/// it reads nothing but its arguments.
#[verifier::external_body]
fn try_find_program_address(seeds: &Vec<Vec<u8>>, program_id: &[u8; 32]) -> (r: Option<([u8; 32], u8)>)
    ensures
        match r {
            Some((a, b)) => program_address(seeds@.map_values(|s: Vec<u8>| s@), program_id@) == Some((a@, b)),
            None => program_address(seeds@.map_values(|s: Vec<u8>| s@), program_id@).is_none(),
        },
{
    let slices: Vec<&[u8]> = seeds.iter().map(|s| s.as_slice()).collect();
    let program = anchor_lang::prelude::Pubkey::new_from_array(*program_id);
    anchor_lang::prelude::Pubkey::try_find_program_address(&slices, &program).map(
        |(a, b)| (a.to_bytes(), b),
    )
}

/// Whether two 32-byte keys are equal.
pub fn same_key(a: &[u8; 32], b: &[u8; 32]) -> (r: bool)
    ensures
        r == (a@ == b@),
{
    let mut i: usize = 0;
    while i < 32
        invariant
            i <= 32,
            forall|j: int| 0 <= j < i ==> a@[j] == b@[j],
        decreases 32 - i,
    {
        if a[i] != b[i] {
            return false;
        }
        i = i + 1;
    }
    assert(a@ =~= b@);
    true
}

/// The bytes of a 32-byte key as a vector.
pub fn key_bytes(a: &[u8; 32]) -> (r: Vec<u8>)
    ensures
        r@ == a@,
{
    let mut v: Vec<u8> = Vec::new();
    let mut i: usize = 0;
    while i < 32
        invariant
            i <= 32,
            v@ == a@.subrange(0, i as int),
        decreases 32 - i,
    {
        v.push(a[i]);
        i = i + 1;
        assert(v@ =~= a@.subrange(0, i as int));
    }
    assert(a@.subrange(0, 32) =~= a@);
    v
}

/// The eight little-endian bytes of a nonce.
pub fn nonce_bytes(seed: u64) -> (r: Vec<u8>)
    ensures
        r@ == le_bytes(seed as nat, 8),
{
    let mut v: Vec<u8> = Vec::new();
    let mut x: u64 = seed;
    let mut i: usize = 0;
    while i < 8
        invariant
            i <= 8,
            v@ + le_bytes(x as nat, (8 - i) as nat) == le_bytes(seed as nat, 8),
        decreases 8 - i,
    {
        let ghost old_v = v@;
        let ghost old_x = x as nat;
        v.push((x % 256) as u8);
        x = x / 256;
        i = i + 1;
        assert(le_bytes(old_x, (8 - (i - 1)) as nat) == seq![(old_x % 256) as u8] + le_bytes(x as nat, (8 - i) as nat));
        assert(v@ + le_bytes(x as nat, (8 - i) as nat) =~= old_v + le_bytes(old_x, (8 - (i - 1)) as nat));
    }
    assert(le_bytes(x as nat, 0) =~= Seq::<u8>::empty());
    assert(v@ =~= v@ + le_bytes(x as nat, 0));
    v
}

/// The namespace bytes as a vector.
fn namespace_bytes() -> (r: Vec<u8>)
    ensures
        r@ == escrow_namespace(),
{
    let v: Vec<u8> = vec![101u8, 115u8, 99u8, 114u8, 111u8, 119u8];
    assert(v@ =~= escrow_namespace());
    v
}

/// Derives the escrow authority of `(maker, seed)` under `program_id`.
pub fn escrow_address(program_id: &[u8; 32], maker: &[u8; 32], seed: u64) -> (r: Option<([u8; 32], u8)>)
    ensures
        match r {
            Some((a, b)) => escrow_authority(program_id@, maker@, seed) == Some((a@, b)),
            None => escrow_authority(program_id@, maker@, seed).is_none(),
        },
{
    let mut seeds: Vec<Vec<u8>> = Vec::new();
    seeds.push(namespace_bytes());
    seeds.push(key_bytes(maker));
    seeds.push(nonce_bytes(seed));
    assert(seeds@.map_values(|s: Vec<u8>| s@) =~= escrow_seeds(maker@, seed));
    try_find_program_address(&seeds, program_id)
}

} // verus!
