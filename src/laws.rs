//! Laws of the escrow protocol, stated over the outcomes that the
//! operations' contracts follow.

use vstd::prelude::*;
use crate::address::escrow_authority;
use crate::escrow::{make_outcome, refund_outcome, take_outcome, terms};
use crate::ledger::{balance_or_zero, follows, EscrowError, LedgerView};

verus! {

/// Initiating succeeds exactly when the authority can be derived, no record
/// or vault stands at it, both mints exist and the maker holds at least the
/// deposit; then the vault holds exactly the deposit, the maker's holding
/// has lost exactly the deposit, and the record holds the terms.
pub proof fn make_moves_deposit(
    v: LedgerView,
    maker: [u8; 32],
    mint_a: [u8; 32],
    mint_b: [u8; 32],
    seed: u64,
    deposit: u64,
    receive: u64,
    r: Result<(), EscrowError>,
    n: LedgerView,
)
    requires
        follows(make_outcome(v, maker, mint_a, mint_b, seed, deposit, receive), v, r, n),
    ensures
        match escrow_authority(v.program_id, maker@, seed) {
            None => r == Err::<(), EscrowError>(EscrowError::NoViableAddress),
            Some((a, b)) => {
                &&& r is Ok <==> (!v.records.contains_key(a) && !v.balances.contains_key((a, mint_a@))
                    && v.decimals.contains_key(mint_a@) && v.decimals.contains_key(mint_b@)
                    && v.balances.contains_key((maker@, mint_a@)) && v.balances[(maker@, mint_a@)] >= deposit)
                &&& r is Ok ==> {
                    &&& n.balances[(a, mint_a@)] == deposit
                    &&& n.balances[(maker@, mint_a@)] == v.balances[(maker@, mint_a@)] - deposit
                    &&& n.records == v.records.insert(a, terms(maker, mint_a, mint_b, seed, deposit, receive, b))
                }
            },
        },
{
    if let Some((a, b)) = escrow_authority(v.program_id, maker@, seed) {
        if v.balances.contains_key((maker@, mint_a@)) && !v.balances.contains_key((a, mint_a@)) {
            assert(maker@ != a);
        }
    }
}

/// Initiating again with the seed of an unresolved escrow of the same maker
/// fails with `Duplicate` and changes nothing.
pub proof fn make_rejects_duplicate(
    v: LedgerView,
    maker: [u8; 32],
    mint_a: [u8; 32],
    mint_b: [u8; 32],
    seed: u64,
    deposit: u64,
    receive: u64,
    r: Result<(), EscrowError>,
    n: LedgerView,
)
    requires
        escrow_authority(v.program_id, maker@, seed) matches Some((a, _)) && v.records.contains_key(a),
        follows(make_outcome(v, maker, mint_a, mint_b, seed, deposit, receive), v, r, n),
    ensures
        r == Err::<(), EscrowError>(EscrowError::Duplicate),
        n == v,
{
}

/// Settling succeeds only while a record of `(maker, seed)` stands at the
/// derived authority; afterwards record and vault are gone, and where taker,
/// maker and vault are distinct parties and the two assets differ, the taker
/// has gained the whole former vault balance and paid `receive`, which the
/// maker has gained.
pub proof fn take_settles(v: LedgerView, taker: Seq<u8>, maker: Seq<u8>, seed: u64, r: Result<(), EscrowError>, n: LedgerView)
    requires
        follows(take_outcome(v, taker, maker, seed), v, r, n),
    ensures
        r is Ok ==> match escrow_authority(v.program_id, maker, seed) {
            None => false,
            Some((a, b)) => {
                let e = v.records[a];
                &&& v.records.contains_key(a) && e.maker@ == maker && e.seed == seed && e.bump == b
                &&& !n.records.contains_key(a)
                &&& !n.balances.contains_key((a, e.mint_a@))
                &&& (taker != maker && taker != a && e.mint_a@ != e.mint_b@) ==> {
                    &&& balance_or_zero(n, (taker, e.mint_a@)) == balance_or_zero(v, (taker, e.mint_a@)) + v.balances[(a, e.mint_a@)]
                    &&& balance_or_zero(n, (taker, e.mint_b@)) == balance_or_zero(v, (taker, e.mint_b@)) - e.receive
                    &&& balance_or_zero(n, (maker, e.mint_b@)) == balance_or_zero(v, (maker, e.mint_b@)) + e.receive
                }
            },
        },
{
}

/// Cancelling succeeds only when called by the escrow's maker; afterwards
/// record and vault are gone and, where the maker is not the vault's
/// authority itself, the maker has regained the whole former vault balance.
pub proof fn refund_returns_deposit(v: LedgerView, caller: Seq<u8>, maker: Seq<u8>, seed: u64, r: Result<(), EscrowError>, n: LedgerView)
    requires
        follows(refund_outcome(v, caller, maker, seed), v, r, n),
    ensures
        r is Ok ==> match escrow_authority(v.program_id, maker, seed) {
            None => false,
            Some((a, b)) => {
                let e = v.records[a];
                &&& v.records.contains_key(a) && e.maker@ == caller && caller == maker
                &&& !n.records.contains_key(a)
                &&& !n.balances.contains_key((a, e.mint_a@))
                &&& maker != a ==> balance_or_zero(n, (maker, e.mint_a@)) == balance_or_zero(v, (maker, e.mint_a@)) + v.balances[(a, e.mint_a@)]
            },
        },
{
}

/// An escrow is consumed at most once: after a successful settle or cancel
/// of `(maker, seed)`, every further settle or cancel of it fails with
/// `NotFound`.
pub proof fn consumed_at_most_once(
    v: LedgerView,
    taker: Seq<u8>,
    caller: Seq<u8>,
    maker: Seq<u8>,
    seed: u64,
    r: Result<(), EscrowError>,
    n: LedgerView,
)
    requires
        follows(take_outcome(v, taker, maker, seed), v, r, n) || follows(refund_outcome(v, caller, maker, seed), v, r, n),
        r is Ok,
    ensures
        forall|t: Seq<u8>| take_outcome(n, t, maker, seed) == Err::<LedgerView, EscrowError>(EscrowError::NotFound),
        forall|c: Seq<u8>| refund_outcome(n, c, maker, seed) == Err::<LedgerView, EscrowError>(EscrowError::NotFound),
{
}

/// Every record stands at the derived authority of its own maker and seed,
/// with the stored bump, and its vault exists.
pub open spec fn escrows_consistent(v: LedgerView) -> bool {
    forall|a: Seq<u8>| #[trigger] v.records.contains_key(a) ==> {
        &&& escrow_authority(v.program_id, v.records[a].maker@, v.records[a].seed) == Some((a, v.records[a].bump))
        &&& v.balances.contains_key((a, v.records[a].mint_a@))
    }
}

/// Initiating keeps every record at its derived authority beside its vault.
pub proof fn make_keeps_escrows_consistent(
    v: LedgerView,
    maker: [u8; 32],
    mint_a: [u8; 32],
    mint_b: [u8; 32],
    seed: u64,
    deposit: u64,
    receive: u64,
    r: Result<(), EscrowError>,
    n: LedgerView,
)
    requires
        escrows_consistent(v),
        follows(make_outcome(v, maker, mint_a, mint_b, seed, deposit, receive), v, r, n),
    ensures
        escrows_consistent(n),
{
}

/// Settling keeps every record at its derived authority beside its vault.
pub proof fn take_keeps_escrows_consistent(v: LedgerView, taker: Seq<u8>, maker: Seq<u8>, seed: u64, r: Result<(), EscrowError>, n: LedgerView)
    requires
        escrows_consistent(v),
        follows(take_outcome(v, taker, maker, seed), v, r, n),
    ensures
        escrows_consistent(n),
{
}

/// Cancelling keeps every record at its derived authority beside its vault.
pub proof fn refund_keeps_escrows_consistent(v: LedgerView, caller: Seq<u8>, maker: Seq<u8>, seed: u64, r: Result<(), EscrowError>, n: LedgerView)
    requires
        escrows_consistent(v),
        follows(refund_outcome(v, caller, maker, seed), v, r, n),
    ensures
        escrows_consistent(n),
{
}

} // verus!
