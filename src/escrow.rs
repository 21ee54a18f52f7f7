//! The escrow protocol: initiate (`make`), settle (`take`) and cancel
//! (`refund`), each all-or-nothing over the ledger.

use vstd::prelude::*;
use crate::address::{escrow_address, escrow_authority, same_key};
use crate::ledger::{
    close_outcome, follows, open_outcome, transfer_outcome, with_records, Escrow,
    EscrowError, Ledger, LedgerView, Record,
};

verus! {

/// The parties and assets named when initiating an escrow.
#[derive(Clone, Copy, Debug, PartialEq, Eq)]
pub struct Make {
    pub maker: [u8; 32],
    pub mint_a: [u8; 32],
    pub mint_b: [u8; 32],
}

/// The taker settling the escrow of `(maker, seed)`.
#[derive(Clone, Copy, Debug, PartialEq, Eq)]
pub struct Taker {
    pub taker: [u8; 32],
    pub maker: [u8; 32],
    pub seed: u64,
}

/// The caller cancelling the escrow of `(maker, seed)`.
#[derive(Clone, Copy, Debug, PartialEq, Eq)]
pub struct Refund {
    pub caller: [u8; 32],
    pub maker: [u8; 32],
    pub seed: u64,
}

/// The record that `make` stores for the given terms.
pub open spec fn terms(maker: [u8; 32], mint_a: [u8; 32], mint_b: [u8; 32], seed: u64, deposit: u64, receive: u64, bump: u8) -> Escrow {
    Escrow { seed, maker, mint_a, mint_b, deposit, receive, bump }
}

/// Initiating an escrow whose authority is `address` with discriminant `bump`:
/// both mints and the maker's holding of the first must exist; the record and an empty vault are created, then the deposit moves from the
/// maker's holding into the vault.
pub open spec fn make_at_outcome(
    v: LedgerView,
    address: Seq<u8>,
    bump: u8,
    maker: [u8; 32],
    mint_a: [u8; 32],
    mint_b: [u8; 32],
    seed: u64,
    deposit: u64,
    receive: u64,
) -> Result<LedgerView, EscrowError> {
    if v.records.contains_key(address) || v.balances.contains_key((address, mint_a@)) {
        Err(EscrowError::Duplicate)
    } else if !v.decimals.contains_key(mint_a@) || !v.decimals.contains_key(mint_b@)
        || !v.balances.contains_key((maker@, mint_a@)) {
        Err(EscrowError::NotFound)
    } else {
        let staged = LedgerView {
            records: v.records.insert(address, terms(maker, mint_a, mint_b, seed, deposit, receive, bump)),
            balances: v.balances.insert((address, mint_a@), 0),
            ..v
        };
        transfer_outcome(staged, maker@, address, mint_a@, deposit, v.decimals[mint_a@])
    }
}

/// Initiating the escrow of `(maker, seed)` at its derived authority.
pub open spec fn make_outcome(
    v: LedgerView,
    maker: [u8; 32],
    mint_a: [u8; 32],
    mint_b: [u8; 32],
    seed: u64,
    deposit: u64,
    receive: u64,
) -> Result<LedgerView, EscrowError> {
    match escrow_authority(v.program_id, maker@, seed) {
        None => Err(EscrowError::NoViableAddress),
        Some((a, b)) => make_at_outcome(v, a, b, maker, mint_a, mint_b, seed, deposit, receive),
    }
}

/// The record stored at `address`, provided its stored maker, seed and bump
/// reproduce that address and its vault and deposit mint exist.
pub open spec fn check_record(v: LedgerView, address: Seq<u8>, bump: u8, maker: Seq<u8>, seed: u64) -> Result<Escrow, EscrowError> {
    if !v.records.contains_key(address) {
        Err(EscrowError::NotFound)
    } else {
        let e = v.records[address];
        if e.maker@ != maker || e.seed != seed || e.bump != bump {
            Err(EscrowError::AddressDerivationMismatch)
        } else if !v.balances.contains_key((address, e.mint_a@)) || !v.decimals.contains_key(e.mint_a@) {
            Err(EscrowError::NotFound)
        } else {
            Ok(e)
        }
    }
}

/// Closes the vault of the escrow at `address` and deletes its record.
pub open spec fn close_escrow(v: LedgerView, address: Seq<u8>, e: Escrow) -> Result<LedgerView, EscrowError> {
    match close_outcome(v, address, e.mint_a@) {
        Err(x) => Err(x),
        Ok(w) => Ok(with_records(w, w.records.remove(address))),
    }
}

/// Settling the escrow at `address` for `taker`: the maker's and the taker's
/// holdings are opened where missing, the taker pays `receive` units of the
/// second asset to the maker, the vault's whole balance goes to the taker,
/// and the vault and record are closed.
pub open spec fn take_at_outcome(v: LedgerView, address: Seq<u8>, bump: u8, taker: Seq<u8>, maker: Seq<u8>, seed: u64) -> Result<LedgerView, EscrowError> {
    match check_record(v, address, bump, maker, seed) {
        Err(x) => Err(x),
        Ok(e) => if !v.decimals.contains_key(e.mint_b@) {
            Err(EscrowError::NotFound)
        } else {
            let vault = v.balances[(address, e.mint_a@)];
            match open_outcome(v, maker, e.mint_b@) {
                Err(x) => Err(x),
                Ok(v1) => match open_outcome(v1, taker, e.mint_a@) {
                    Err(x) => Err(x),
                    Ok(v2) => match transfer_outcome(v2, taker, maker, e.mint_b@, e.receive, v.decimals[e.mint_b@]) {
                        Err(x) => Err(x),
                        Ok(v3) => match transfer_outcome(v3, address, taker, e.mint_a@, vault, v.decimals[e.mint_a@]) {
                            Err(x) => Err(x),
                            Ok(v4) => close_escrow(v4, address, e),
                        },
                    },
                },
            }
        },
    }
}

/// Settling the escrow of `(maker, seed)` at its derived authority.
pub open spec fn take_outcome(v: LedgerView, taker: Seq<u8>, maker: Seq<u8>, seed: u64) -> Result<LedgerView, EscrowError> {
    match escrow_authority(v.program_id, maker, seed) {
        None => Err(EscrowError::NotFound),
        Some((a, b)) => take_at_outcome(v, a, b, taker, maker, seed),
    }
}

/// Cancelling the escrow at `address` on behalf of `caller`, who must be its
/// maker: the vault's whole balance returns to the maker's holding (opened
/// where missing), and the vault and record are closed.
pub open spec fn refund_at_outcome(v: LedgerView, address: Seq<u8>, bump: u8, caller: Seq<u8>, maker: Seq<u8>, seed: u64) -> Result<LedgerView, EscrowError> {
    match check_record(v, address, bump, maker, seed) {
        Err(x) => Err(x),
        Ok(e) => if caller != maker {
            Err(EscrowError::Unauthorized)
        } else {
            let vault = v.balances[(address, e.mint_a@)];
            match open_outcome(v, maker, e.mint_a@) {
                Err(x) => Err(x),
                Ok(v1) => match transfer_outcome(v1, address, maker, e.mint_a@, vault, v.decimals[e.mint_a@]) {
                    Err(x) => Err(x),
                    Ok(v2) => close_escrow(v2, address, e),
                },
            }
        },
    }
}

/// Cancelling the escrow of `(maker, seed)` at its derived authority.
pub open spec fn refund_outcome(v: LedgerView, caller: Seq<u8>, maker: Seq<u8>, seed: u64) -> Result<LedgerView, EscrowError> {
    match escrow_authority(v.program_id, maker, seed) {
        None => Err(EscrowError::NotFound),
        Some((a, b)) => refund_at_outcome(v, a, b, caller, maker, seed),
    }
}

impl Ledger {
    /// Initiates an escrow whose authority has already been derived as
    /// `(address, bump)`.
    pub fn make_at(
        &mut self,
        address: [u8; 32],
        bump: u8,
        maker: [u8; 32],
        mint_a: [u8; 32],
        mint_b: [u8; 32],
        seed: u64,
        deposit: u64,
        receive: u64,
    ) -> (r: Result<(), EscrowError>)
        requires
            old(self).wf(),
        ensures
            final(self).wf(),
            follows(make_at_outcome(old(self)@, address@, bump, maker, mint_a, mint_b, seed, deposit, receive), old(self)@, r, final(self)@),
    {
        if self.record(&address).is_some() || self.balance(&address, &mint_a).is_some() {
            return Err(EscrowError::Duplicate);
        }
        let dec_a = match self.decimals(&mint_a) {
            Some(d) => d,
            None => return Err(EscrowError::NotFound),
        };
        if self.decimals(&mint_b).is_none() || self.balance(&maker, &mint_a).is_none() {
            return Err(EscrowError::NotFound);
        }
        let mut staged = self.snapshot();
        staged.insert_record(Record {
            address,
            escrow: Escrow { seed, maker, mint_a, mint_b, deposit, receive, bump },
        });
        match staged.open_holding(&address, &mint_a) {
            Ok(()) => {},
            Err(x) => return Err(x),
        }
        match staged.transfer_checked(&maker, &address, &mint_a, deposit, dec_a) {
            Ok(()) => {},
            Err(x) => return Err(x),
        }
        *self = staged;
        Ok(())
    }

    /// Initiates the escrow of `(maker, seed)`: `deposit` units of `mint_a`
    /// move into a fresh vault, asking `receive` units of `mint_b` in return.
    pub fn make(&mut self, ctx: &Make, seed: u64, deposit: u64, receive: u64) -> (r: Result<(), EscrowError>)
        requires
            old(self).wf(),
        ensures
            final(self).wf(),
            follows(make_outcome(old(self)@, ctx.maker, ctx.mint_a, ctx.mint_b, seed, deposit, receive), old(self)@, r, final(self)@),
    {
        match escrow_address(&self.program_id, &ctx.maker, seed) {
            None => Err(EscrowError::NoViableAddress),
            Some((address, bump)) => self.make_at(address, bump, ctx.maker, ctx.mint_a, ctx.mint_b, seed, deposit, receive),
        }
    }

    /// The record at `address` with its vault balance and the decimals of its
    /// deposit mint, after the checks of `check_record`.
    fn checked_record(&self, address: &[u8; 32], bump: u8, maker: &[u8; 32], seed: u64) -> (r: Result<(Escrow, u64, u8), EscrowError>)
        requires
            self.wf(),
        ensures
            match check_record(self@, address@, bump, maker@, seed) {
                Ok(e) => r == Ok::<(Escrow, u64, u8), EscrowError>(
                    (e, self@.balances[(address@, e.mint_a@)], self@.decimals[e.mint_a@]),
                ),
                Err(x) => r == Err::<(Escrow, u64, u8), EscrowError>(x),
            },
    {
        let e = match self.record(address) {
            Some(e) => e,
            None => return Err(EscrowError::NotFound),
        };
        if !same_key(&e.maker, maker) || e.seed != seed || e.bump != bump {
            return Err(EscrowError::AddressDerivationMismatch);
        }
        let vault = match self.balance(address, &e.mint_a) {
            Some(a) => a,
            None => return Err(EscrowError::NotFound),
        };
        let dec_a = match self.decimals(&e.mint_a) {
            Some(d) => d,
            None => return Err(EscrowError::NotFound),
        };
        Ok((e, vault, dec_a))
    }

    /// Closes the vault of the escrow at `address` and deletes its record.
    fn close_escrow(&mut self, address: &[u8; 32], e: &Escrow) -> (r: Result<(), EscrowError>)
        requires
            old(self).wf(),
        ensures
            final(self).wf(),
            follows(close_escrow(old(self)@, address@, *e), old(self)@, r, final(self)@),
    {
        match self.close_holding(address, &e.mint_a) {
            Ok(()) => {},
            Err(x) => return Err(x),
        }
        self.remove_record(address);
        Ok(())
    }

    /// Settles the escrow stored at the derived authority `(address, bump)`
    /// of `(maker, seed)` in favour of `taker`.
    pub fn take_at(&mut self, address: [u8; 32], bump: u8, taker: [u8; 32], maker: [u8; 32], seed: u64) -> (r: Result<(), EscrowError>)
        requires
            old(self).wf(),
        ensures
            final(self).wf(),
            follows(take_at_outcome(old(self)@, address@, bump, taker@, maker@, seed), old(self)@, r, final(self)@),
    {
        let (e, vault, dec_a) = match self.checked_record(&address, bump, &maker, seed) {
            Ok(t) => t,
            Err(x) => return Err(x),
        };
        let dec_b = match self.decimals(&e.mint_b) {
            Some(d) => d,
            None => return Err(EscrowError::NotFound),
        };
        let mut staged = self.snapshot();
        match staged.open_holding(&maker, &e.mint_b) {
            Ok(()) => {},
            Err(x) => return Err(x),
        }
        match staged.open_holding(&taker, &e.mint_a) {
            Ok(()) => {},
            Err(x) => return Err(x),
        }
        match staged.transfer_checked(&taker, &maker, &e.mint_b, e.receive, dec_b) {
            Ok(()) => {},
            Err(x) => return Err(x),
        }
        match staged.transfer_checked(&address, &taker, &e.mint_a, vault, dec_a) {
            Ok(()) => {},
            Err(x) => return Err(x),
        }
        match staged.close_escrow(&address, &e) {
            Ok(()) => {},
            Err(x) => return Err(x),
        }
        *self = staged;
        Ok(())
    }

    /// Settles the escrow of `(maker, seed)`: `taker` pays the requested
    /// amount of the second asset to the maker and receives the vault.
    pub fn take(&mut self, ctx: &Taker) -> (r: Result<(), EscrowError>)
        requires
            old(self).wf(),
        ensures
            final(self).wf(),
            follows(take_outcome(old(self)@, ctx.taker@, ctx.maker@, ctx.seed), old(self)@, r, final(self)@),
    {
        match escrow_address(&self.program_id, &ctx.maker, ctx.seed) {
            None => Err(EscrowError::NotFound),
            Some((address, bump)) => self.take_at(address, bump, ctx.taker, ctx.maker, ctx.seed),
        }
    }

    /// Cancels the escrow stored at the derived authority `(address, bump)`
    /// of `(maker, seed)` on behalf of `caller`.
    pub fn refund_at(&mut self, address: [u8; 32], bump: u8, caller: [u8; 32], maker: [u8; 32], seed: u64) -> (r: Result<(), EscrowError>)
        requires
            old(self).wf(),
        ensures
            final(self).wf(),
            follows(refund_at_outcome(old(self)@, address@, bump, caller@, maker@, seed), old(self)@, r, final(self)@),
    {
        let (e, vault, dec_a) = match self.checked_record(&address, bump, &maker, seed) {
            Ok(t) => t,
            Err(x) => return Err(x),
        };
        if !same_key(&caller, &maker) {
            return Err(EscrowError::Unauthorized);
        }
        let mut staged = self.snapshot();
        match staged.open_holding(&maker, &e.mint_a) {
            Ok(()) => {},
            Err(x) => return Err(x),
        }
        match staged.transfer_checked(&address, &maker, &e.mint_a, vault, dec_a) {
            Ok(()) => {},
            Err(x) => return Err(x),
        }
        match staged.close_escrow(&address, &e) {
            Ok(()) => {},
            Err(x) => return Err(x),
        }
        *self = staged;
        Ok(())
    }

    /// Cancels the escrow of `(maker, seed)`: the vault's balance returns to
    /// the maker. Only the maker may call it.
    pub fn refund(&mut self, ctx: &Refund) -> (r: Result<(), EscrowError>)
        requires
            old(self).wf(),
        ensures
            final(self).wf(),
            follows(refund_outcome(old(self)@, ctx.caller@, ctx.maker@, ctx.seed), old(self)@, r, final(self)@),
    {
        match escrow_address(&self.program_id, &ctx.maker, ctx.seed) {
            None => Err(EscrowError::NotFound),
            Some((address, bump)) => self.refund_at(address, bump, ctx.caller, ctx.maker, ctx.seed),
        }
    }
}

} // verus!
