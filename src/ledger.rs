//! A ledger of asset classes (mints), token holdings and escrow records, with
//! the checked-transfer, open-holding and close-holding primitives.

use vstd::prelude::*;
use crate::address::same_key;

verus! {

/// An asset class and the number of decimals of its smallest unit.
#[derive(Clone, Copy, Debug, PartialEq, Eq)]
pub struct Mint {
    pub key: [u8; 32],
    pub decimals: u8,
}

/// A balance of one asset class held by one owner.
#[derive(Clone, Copy, Debug, PartialEq, Eq)]
pub struct Holding {
    pub owner: [u8; 32],
    pub mint: [u8; 32],
    pub amount: u64,
}

/// The descriptor of one pending trade.
#[derive(Clone, Copy, Debug, PartialEq, Eq)]
pub struct Escrow {
    pub seed: u64,
    pub maker: [u8; 32],
    pub mint_a: [u8; 32],
    pub mint_b: [u8; 32],
    pub deposit: u64,
    pub receive: u64,
    pub bump: u8,
}

/// An escrow descriptor stored at its derived address.
#[derive(Clone, Copy, Debug, PartialEq, Eq)]
pub struct Record {
    pub address: [u8; 32],
    pub escrow: Escrow,
}

/// Why an operation was refused. A refused operation changes nothing.
#[derive(Clone, Copy, Debug, PartialEq, Eq, Structural)]
pub enum EscrowError {
    /// A record or vault already exists at the derived address.
    Duplicate,
    /// A record, holding or mint that the operation needs is missing.
    NotFound,
    /// The caller is not the party the operation requires.
    Unauthorized,
    /// The source holding has less than the amount to move.
    InsufficientBalance,
    /// The stated decimals differ from the mint's.
    DecimalMismatch,
    /// A stored record does not reproduce the address it is stored at.
    AddressDerivationMismatch,
    /// No bump in the search range gives a keyless address.
    NoViableAddress,
    /// A balance would exceed the largest representable amount.
    Overflow,
    /// A holding cannot be closed while it still has a balance.
    HoldingNotEmpty,
}

/// The key of a holding: owner, then mint.
pub type HoldingKey = (Seq<u8>, Seq<u8>);

/// The mathematical state of a ledger.
pub struct LedgerView {
    pub program_id: Seq<u8>,
    pub decimals: Map<Seq<u8>, u8>,
    pub balances: Map<HoldingKey, u64>,
    pub records: Map<Seq<u8>, Escrow>,
}

/// The in-memory ledger. Each table holds each key at most once.
pub struct Ledger {
    pub program_id: [u8; 32],
    pub mints: Vec<Mint>,
    pub holdings: Vec<Holding>,
    pub records: Vec<Record>,
}

impl Holding {
    /// The owner and mint that identify this holding.
    pub open spec fn key(self) -> HoldingKey {
        (self.owner@, self.mint@)
    }
}

/// No two mints share a key.
pub open spec fn unique_mints(s: Seq<Mint>) -> bool {
    forall|i: int, j: int| 0 <= i < s.len() && 0 <= j < s.len() && i != j ==> s[i].key@ != s[j].key@
}

/// No two holdings share an owner and a mint.
pub open spec fn unique_holdings(s: Seq<Holding>) -> bool {
    forall|i: int, j: int|
        0 <= i < s.len() && 0 <= j < s.len() && i != j ==> s[i].key() != s[j].key()
}

/// No two records share an address.
pub open spec fn unique_records(s: Seq<Record>) -> bool {
    forall|i: int, j: int|
        0 <= i < s.len() && 0 <= j < s.len() && i != j ==> s[i].address@ != s[j].address@
}

/// The mint table as a map from key to decimals.
pub open spec fn decimals_of(s: Seq<Mint>) -> Map<Seq<u8>, u8> {
    Map::new(
        |k: Seq<u8>| exists|i: int| 0 <= i < s.len() && s[i].key@ == k,
        |k: Seq<u8>| s[choose|i: int| 0 <= i < s.len() && s[i].key@ == k].decimals,
    )
}

/// The holding table as a map from (owner, mint) to balance.
pub open spec fn balances_of(s: Seq<Holding>) -> Map<HoldingKey, u64> {
    Map::new(
        |k: HoldingKey| exists|i: int| 0 <= i < s.len() && s[i].key() == k,
        |k: HoldingKey| s[choose|i: int| 0 <= i < s.len() && s[i].key() == k].amount,
    )
}

/// The record table as a map from address to escrow.
pub open spec fn records_of(s: Seq<Record>) -> Map<Seq<u8>, Escrow> {
    Map::new(
        |k: Seq<u8>| exists|i: int| 0 <= i < s.len() && s[i].address@ == k,
        |k: Seq<u8>| s[choose|i: int| 0 <= i < s.len() && s[i].address@ == k].escrow,
    )
}

impl View for Ledger {
    type V = LedgerView;

    open spec fn view(&self) -> LedgerView {
        LedgerView {
            program_id: self.program_id@,
            decimals: decimals_of(self.mints@),
            balances: balances_of(self.holdings@),
            records: records_of(self.records@),
        }
    }
}

impl Ledger {
    /// Each mint, holding and record key occurs once.
    pub open spec fn wf(&self) -> bool {
        unique_mints(self.mints@) && unique_holdings(self.holdings@) && unique_records(self.records@)
    }
}


/// The entry at index `i` is what the table maps its key to.
proof fn lemma_holding_at(s: Seq<Holding>, i: int)
    requires
        unique_holdings(s),
        0 <= i < s.len(),
    ensures
        balances_of(s).contains_key(s[i].key()),
        balances_of(s)[s[i].key()] == s[i].amount,
{
    let k = s[i].key();
    assert(balances_of(s).contains_key(k));
    let j = choose|j: int| 0 <= j < s.len() && s[j].key() == k;
    assert(j == i);
}

/// A key found at no index is not in the table.
proof fn lemma_holding_absent(s: Seq<Holding>, k: HoldingKey)
    requires
        forall|j: int| 0 <= j < s.len() ==> s[j].key() != k,
    ensures
        !balances_of(s).contains_key(k),
{
}

/// Replacing an entry by one with the same key updates that key alone.
proof fn lemma_holding_update(s: Seq<Holding>, i: int, h: Holding)
    requires
        unique_holdings(s),
        0 <= i < s.len(),
        h.key() == s[i].key(),
    ensures
        unique_holdings(s.update(i, h)),
        balances_of(s.update(i, h)) == balances_of(s).insert(h.key(), h.amount),
{
    let n = s.update(i, h);
    assert(unique_holdings(n)) by {
        assert forall|a: int, b: int| 0 <= a < n.len() && 0 <= b < n.len() && a != b implies n[a].key() != n[b].key() by {
            assert(n[a].key() == s[a].key());
            assert(n[b].key() == s[b].key());
        }
    }
    lemma_holding_at(n, i);
    let m = balances_of(s).insert(h.key(), h.amount);
    assert forall|k: HoldingKey| #[trigger] balances_of(n).contains_key(k) <==> m.contains_key(k) by {
        if k != h.key() {
            if balances_of(s).contains_key(k) {
                let j = choose|j: int| 0 <= j < s.len() && s[j].key() == k;
                lemma_holding_at(s, j);
                lemma_holding_at(n, j);
            }
            if balances_of(n).contains_key(k) {
                let j = choose|j: int| 0 <= j < n.len() && n[j].key() == k;
                assert(s[j] == n[j]);
            }
        }
    }
    assert forall|k: HoldingKey| #[trigger] balances_of(n).contains_key(k) implies balances_of(n)[k] == m[k] by {
        if k != h.key() {
            if balances_of(s).contains_key(k) {
                let j = choose|j: int| 0 <= j < s.len() && s[j].key() == k;
                lemma_holding_at(s, j);
                lemma_holding_at(n, j);
            }
            if balances_of(n).contains_key(k) {
                let j = choose|j: int| 0 <= j < n.len() && n[j].key() == k;
                assert(s[j] == n[j]);
            }
        }
    }
    assert(balances_of(n) =~= m);
}

/// Appending an entry with a new key adds that key alone.
proof fn lemma_holding_push(s: Seq<Holding>, h: Holding)
    requires
        unique_holdings(s),
        !balances_of(s).contains_key(h.key()),
    ensures
        unique_holdings(s.push(h)),
        balances_of(s.push(h)) == balances_of(s).insert(h.key(), h.amount),
{
    let n = s.push(h);
    assert(unique_holdings(n)) by {
        assert forall|a: int, b: int| 0 <= a < n.len() && 0 <= b < n.len() && a != b implies n[a].key() != n[b].key() by {
            if a < s.len() {
                assert(n[a] == s[a]);
            }
            if b < s.len() {
                assert(n[b] == s[b]);
            }
        }
    }
    lemma_holding_at(n, s.len() as int);
    let m = balances_of(s).insert(h.key(), h.amount);
    assert forall|k: HoldingKey| #[trigger] balances_of(n).contains_key(k) <==> m.contains_key(k) by {
        if k != h.key() {
            if balances_of(s).contains_key(k) {
                let j = choose|j: int| 0 <= j < s.len() && s[j].key() == k;
                lemma_holding_at(s, j);
                lemma_holding_at(n, j);
            }
            if balances_of(n).contains_key(k) {
                let j = choose|j: int| 0 <= j < n.len() && n[j].key() == k;
                assert(j < s.len());
                assert(s[j] == n[j]);
            }
        }
    }
    assert forall|k: HoldingKey| #[trigger] balances_of(n).contains_key(k) implies balances_of(n)[k] == m[k] by {
        if k != h.key() {
            if balances_of(s).contains_key(k) {
                let j = choose|j: int| 0 <= j < s.len() && s[j].key() == k;
                lemma_holding_at(s, j);
                lemma_holding_at(n, j);
            }
            if balances_of(n).contains_key(k) {
                let j = choose|j: int| 0 <= j < n.len() && n[j].key() == k;
                assert(j < s.len());
                assert(s[j] == n[j]);
            }
        }
    }
    assert(balances_of(n) =~= m);
}

/// Removing an entry removes its key alone.
proof fn lemma_holding_remove(s: Seq<Holding>, i: int)
    requires
        unique_holdings(s),
        0 <= i < s.len(),
    ensures
        unique_holdings(s.remove(i)),
        balances_of(s.remove(i)) == balances_of(s).remove(s[i].key()),
{
    let n = s.remove(i);
    let k0 = s[i].key();
    assert(unique_holdings(n)) by {
        assert forall|a: int, b: int| 0 <= a < n.len() && 0 <= b < n.len() && a != b implies n[a].key() != n[b].key() by {
            let a2 = if a < i { a } else { a + 1 };
            let b2 = if b < i { b } else { b + 1 };
            assert(n[a] == s[a2]);
            assert(n[b] == s[b2]);
        }
    }
    assert forall|j: int| 0 <= j < n.len() implies n[j].key() != k0 by {
        let j2 = if j < i { j } else { j + 1 };
        assert(n[j] == s[j2]);
    }
    let m = balances_of(s).remove(k0);
    assert forall|k: HoldingKey| #[trigger] balances_of(n).contains_key(k) <==> m.contains_key(k) by {
        if k != k0 {
            if balances_of(s).contains_key(k) {
                let j = choose|j: int| 0 <= j < s.len() && s[j].key() == k;
                lemma_holding_at(s, j);
                let j2 = if j < i { j } else { j - 1 };
                assert(n[j2] == s[j]);
                lemma_holding_at(n, j2);
            }
            if balances_of(n).contains_key(k) {
                let j = choose|j: int| 0 <= j < n.len() && n[j].key() == k;
                let j2 = if j < i { j } else { j + 1 };
                assert(n[j] == s[j2]);
            }
        }
    }
    assert forall|k: HoldingKey| #[trigger] balances_of(n).contains_key(k) implies balances_of(n)[k] == m[k] by {
        if k != k0 {
            if balances_of(s).contains_key(k) {
                let j = choose|j: int| 0 <= j < s.len() && s[j].key() == k;
                lemma_holding_at(s, j);
                let j2 = if j < i { j } else { j - 1 };
                assert(n[j2] == s[j]);
                lemma_holding_at(n, j2);
            }
            if balances_of(n).contains_key(k) {
                let j = choose|j: int| 0 <= j < n.len() && n[j].key() == k;
                let j2 = if j < i { j } else { j + 1 };
                assert(n[j] == s[j2]);
            }
        }
    }
    assert(balances_of(n) =~= m);
}

/// The entry at index `i` is what the table maps its key to.
proof fn lemma_record_at(s: Seq<Record>, i: int)
    requires
        unique_records(s),
        0 <= i < s.len(),
    ensures
        records_of(s).contains_key(s[i].address@),
        records_of(s)[s[i].address@] == s[i].escrow,
{
    let k = s[i].address@;
    assert(records_of(s).contains_key(k));
    let j = choose|j: int| 0 <= j < s.len() && s[j].address@ == k;
    assert(j == i);
}

/// A key found at no index is not in the table.
proof fn lemma_record_absent(s: Seq<Record>, k: Seq<u8>)
    requires
        forall|j: int| 0 <= j < s.len() ==> s[j].address@ != k,
    ensures
        !records_of(s).contains_key(k),
{
}

/// Appending an entry with a new key adds that key alone.
proof fn lemma_record_push(s: Seq<Record>, h: Record)
    requires
        unique_records(s),
        !records_of(s).contains_key(h.address@),
    ensures
        unique_records(s.push(h)),
        records_of(s.push(h)) == records_of(s).insert(h.address@, h.escrow),
{
    let n = s.push(h);
    assert(unique_records(n)) by {
        assert forall|a: int, b: int| 0 <= a < n.len() && 0 <= b < n.len() && a != b implies n[a].address@ != n[b].address@ by {
            if a < s.len() {
                assert(n[a] == s[a]);
            }
            if b < s.len() {
                assert(n[b] == s[b]);
            }
        }
    }
    lemma_record_at(n, s.len() as int);
    let m = records_of(s).insert(h.address@, h.escrow);
    assert forall|k: Seq<u8>| #[trigger] records_of(n).contains_key(k) <==> m.contains_key(k) by {
        if k != h.address@ {
            if records_of(s).contains_key(k) {
                let j = choose|j: int| 0 <= j < s.len() && s[j].address@ == k;
                lemma_record_at(s, j);
                lemma_record_at(n, j);
            }
            if records_of(n).contains_key(k) {
                let j = choose|j: int| 0 <= j < n.len() && n[j].address@ == k;
                assert(j < s.len());
                assert(s[j] == n[j]);
            }
        }
    }
    assert forall|k: Seq<u8>| #[trigger] records_of(n).contains_key(k) implies records_of(n)[k] == m[k] by {
        if k != h.address@ {
            if records_of(s).contains_key(k) {
                let j = choose|j: int| 0 <= j < s.len() && s[j].address@ == k;
                lemma_record_at(s, j);
                lemma_record_at(n, j);
            }
            if records_of(n).contains_key(k) {
                let j = choose|j: int| 0 <= j < n.len() && n[j].address@ == k;
                assert(j < s.len());
                assert(s[j] == n[j]);
            }
        }
    }
    assert(records_of(n) =~= m);
}

/// Removing an entry removes its key alone.
proof fn lemma_record_remove(s: Seq<Record>, i: int)
    requires
        unique_records(s),
        0 <= i < s.len(),
    ensures
        unique_records(s.remove(i)),
        records_of(s.remove(i)) == records_of(s).remove(s[i].address@),
{
    let n = s.remove(i);
    let k0 = s[i].address@;
    assert(unique_records(n)) by {
        assert forall|a: int, b: int| 0 <= a < n.len() && 0 <= b < n.len() && a != b implies n[a].address@ != n[b].address@ by {
            let a2 = if a < i { a } else { a + 1 };
            let b2 = if b < i { b } else { b + 1 };
            assert(n[a] == s[a2]);
            assert(n[b] == s[b2]);
        }
    }
    assert forall|j: int| 0 <= j < n.len() implies n[j].address@ != k0 by {
        let j2 = if j < i { j } else { j + 1 };
        assert(n[j] == s[j2]);
    }
    let m = records_of(s).remove(k0);
    assert forall|k: Seq<u8>| #[trigger] records_of(n).contains_key(k) <==> m.contains_key(k) by {
        if k != k0 {
            if records_of(s).contains_key(k) {
                let j = choose|j: int| 0 <= j < s.len() && s[j].address@ == k;
                lemma_record_at(s, j);
                let j2 = if j < i { j } else { j - 1 };
                assert(n[j2] == s[j]);
                lemma_record_at(n, j2);
            }
            if records_of(n).contains_key(k) {
                let j = choose|j: int| 0 <= j < n.len() && n[j].address@ == k;
                let j2 = if j < i { j } else { j + 1 };
                assert(n[j] == s[j2]);
            }
        }
    }
    assert forall|k: Seq<u8>| #[trigger] records_of(n).contains_key(k) implies records_of(n)[k] == m[k] by {
        if k != k0 {
            if records_of(s).contains_key(k) {
                let j = choose|j: int| 0 <= j < s.len() && s[j].address@ == k;
                lemma_record_at(s, j);
                let j2 = if j < i { j } else { j - 1 };
                assert(n[j2] == s[j]);
                lemma_record_at(n, j2);
            }
            if records_of(n).contains_key(k) {
                let j = choose|j: int| 0 <= j < n.len() && n[j].address@ == k;
                let j2 = if j < i { j } else { j + 1 };
                assert(n[j] == s[j2]);
            }
        }
    }
    assert(records_of(n) =~= m);
}

/// The entry at index `i` is what the table maps its key to.
proof fn lemma_mint_at(s: Seq<Mint>, i: int)
    requires
        unique_mints(s),
        0 <= i < s.len(),
    ensures
        decimals_of(s).contains_key(s[i].key@),
        decimals_of(s)[s[i].key@] == s[i].decimals,
{
    let k = s[i].key@;
    assert(decimals_of(s).contains_key(k));
    let j = choose|j: int| 0 <= j < s.len() && s[j].key@ == k;
    assert(j == i);
}

/// A key found at no index is not in the table.
proof fn lemma_mint_absent(s: Seq<Mint>, k: Seq<u8>)
    requires
        forall|j: int| 0 <= j < s.len() ==> s[j].key@ != k,
    ensures
        !decimals_of(s).contains_key(k),
{
}

/// Appending an entry with a new key adds that key alone.
proof fn lemma_mint_push(s: Seq<Mint>, h: Mint)
    requires
        unique_mints(s),
        !decimals_of(s).contains_key(h.key@),
    ensures
        unique_mints(s.push(h)),
        decimals_of(s.push(h)) == decimals_of(s).insert(h.key@, h.decimals),
{
    let n = s.push(h);
    assert(unique_mints(n)) by {
        assert forall|a: int, b: int| 0 <= a < n.len() && 0 <= b < n.len() && a != b implies n[a].key@ != n[b].key@ by {
            if a < s.len() {
                assert(n[a] == s[a]);
            }
            if b < s.len() {
                assert(n[b] == s[b]);
            }
        }
    }
    lemma_mint_at(n, s.len() as int);
    let m = decimals_of(s).insert(h.key@, h.decimals);
    assert forall|k: Seq<u8>| #[trigger] decimals_of(n).contains_key(k) <==> m.contains_key(k) by {
        if k != h.key@ {
            if decimals_of(s).contains_key(k) {
                let j = choose|j: int| 0 <= j < s.len() && s[j].key@ == k;
                lemma_mint_at(s, j);
                lemma_mint_at(n, j);
            }
            if decimals_of(n).contains_key(k) {
                let j = choose|j: int| 0 <= j < n.len() && n[j].key@ == k;
                assert(j < s.len());
                assert(s[j] == n[j]);
            }
        }
    }
    assert forall|k: Seq<u8>| #[trigger] decimals_of(n).contains_key(k) implies decimals_of(n)[k] == m[k] by {
        if k != h.key@ {
            if decimals_of(s).contains_key(k) {
                let j = choose|j: int| 0 <= j < s.len() && s[j].key@ == k;
                lemma_mint_at(s, j);
                lemma_mint_at(n, j);
            }
            if decimals_of(n).contains_key(k) {
                let j = choose|j: int| 0 <= j < n.len() && n[j].key@ == k;
                assert(j < s.len());
                assert(s[j] == n[j]);
            }
        }
    }
    assert(decimals_of(n) =~= m);
}


/// A ledger state with its balances replaced.
pub open spec fn with_balances(v: LedgerView, b: Map<HoldingKey, u64>) -> LedgerView {
    LedgerView { program_id: v.program_id, decimals: v.decimals, balances: b, records: v.records }
}

/// A ledger state with its records replaced.
pub open spec fn with_records(v: LedgerView, r: Map<Seq<u8>, Escrow>) -> LedgerView {
    LedgerView { program_id: v.program_id, decimals: v.decimals, balances: v.balances, records: r }
}

/// The balance of a holding, zero where the holding does not exist.
pub open spec fn balance_or_zero(v: LedgerView, k: HoldingKey) -> int {
    if v.balances.contains_key(k) {
        v.balances[k] as int
    } else {
        0
    }
}

/// Checked transfer of `amount` units of `mint` from `from`'s holding to
/// `to`'s holding, stating the mint's decimals.
pub open spec fn transfer_outcome(
    v: LedgerView,
    from: Seq<u8>,
    to: Seq<u8>,
    mint: Seq<u8>,
    amount: u64,
    decimals: u8,
) -> Result<LedgerView, EscrowError> {
    if !v.decimals.contains_key(mint) {
        Err(EscrowError::NotFound)
    } else if v.decimals[mint] != decimals {
        Err(EscrowError::DecimalMismatch)
    } else if !v.balances.contains_key((from, mint)) || !v.balances.contains_key((to, mint)) {
        Err(EscrowError::NotFound)
    } else if v.balances[(from, mint)] < amount {
        Err(EscrowError::InsufficientBalance)
    } else if from == to {
        Ok(v)
    } else if v.balances[(to, mint)] + amount > u64::MAX {
        Err(EscrowError::Overflow)
    } else {
        Ok(with_balances(v, v.balances
            .insert((from, mint), (v.balances[(from, mint)] - amount) as u64)
            .insert((to, mint), (v.balances[(to, mint)] + amount) as u64)))
    }
}

/// Opens an empty holding of `mint` for `owner` unless one exists.
pub open spec fn open_outcome(v: LedgerView, owner: Seq<u8>, mint: Seq<u8>) -> Result<LedgerView, EscrowError> {
    if !v.decimals.contains_key(mint) {
        Err(EscrowError::NotFound)
    } else if v.balances.contains_key((owner, mint)) {
        Ok(v)
    } else {
        Ok(with_balances(v, v.balances.insert((owner, mint), 0)))
    }
}

/// Closes `owner`'s holding of `mint`, which must be empty.
pub open spec fn close_outcome(v: LedgerView, owner: Seq<u8>, mint: Seq<u8>) -> Result<LedgerView, EscrowError> {
    if !v.balances.contains_key((owner, mint)) {
        Err(EscrowError::NotFound)
    } else if v.balances[(owner, mint)] != 0 {
        Err(EscrowError::HoldingNotEmpty)
    } else {
        Ok(with_balances(v, v.balances.remove((owner, mint))))
    }
}

/// Issues `amount` new units of `mint` into `owner`'s holding.
pub open spec fn issue_outcome(v: LedgerView, owner: Seq<u8>, mint: Seq<u8>, amount: u64) -> Result<LedgerView, EscrowError> {
    if !v.decimals.contains_key(mint) || !v.balances.contains_key((owner, mint)) {
        Err(EscrowError::NotFound)
    } else if v.balances[(owner, mint)] + amount > u64::MAX {
        Err(EscrowError::Overflow)
    } else {
        Ok(with_balances(v, v.balances.insert((owner, mint), (v.balances[(owner, mint)] + amount) as u64)))
    }
}

/// The exec result `r` and final state `n` match the expected outcome `o`
/// from the state `v`: on an error nothing changed.
pub open spec fn follows(o: Result<LedgerView, EscrowError>, v: LedgerView, r: Result<(), EscrowError>, n: LedgerView) -> bool {
    match o {
        Ok(w) => r is Ok && n == w,
        Err(e) => r == Err::<(), EscrowError>(e) && n == v,
    }
}

/// An element-wise copy of a vector.
fn copy_vec<T: Copy>(v: &Vec<T>) -> (r: Vec<T>)
    ensures
        r@ == v@,
{
    let mut out: Vec<T> = Vec::new();
    let mut i: usize = 0;
    while i < v.len()
        invariant
            i <= v.len(),
            out@ == v@.subrange(0, i as int),
        decreases v.len() - i,
    {
        out.push(v[i]);
        i = i + 1;
        assert(out@ =~= v@.subrange(0, i as int));
    }
    assert(v@.subrange(0, v.len() as int) =~= v@);
    out
}

impl Ledger {
    /// An empty ledger for the escrow program `program_id`.
    pub fn new(program_id: [u8; 32]) -> (r: Ledger)
        ensures
            r.wf(),
            r@.program_id == program_id@,
            r@.decimals == Map::<Seq<u8>, u8>::empty(),
            r@.balances == Map::<HoldingKey, u64>::empty(),
            r@.records == Map::<Seq<u8>, Escrow>::empty(),
    {
        let r = Ledger { program_id, mints: Vec::new(), holdings: Vec::new(), records: Vec::new() };
        assert(r@.decimals =~= Map::<Seq<u8>, u8>::empty());
        assert(r@.balances =~= Map::<HoldingKey, u64>::empty());
        assert(r@.records =~= Map::<Seq<u8>, Escrow>::empty());
        r
    }

    /// A copy of the whole state, used to stage an operation.
    pub(crate) fn snapshot(&self) -> (r: Ledger)
        ensures
            r.program_id == self.program_id,
            r.mints@ == self.mints@,
            r.holdings@ == self.holdings@,
            r.records@ == self.records@,
    {
        Ledger {
            program_id: self.program_id,
            mints: copy_vec(&self.mints),
            holdings: copy_vec(&self.holdings),
            records: copy_vec(&self.records),
        }
    }

    /// The index of the mint with key `key`, if any.
    pub(crate) fn find_mint(&self, key: &[u8; 32]) -> (r: Option<usize>)
        ensures
            match r {
                Some(i) => i < self.mints.len() && self.mints@[i as int].key@ == key@,
                None => forall|j: int| 0 <= j < self.mints.len() ==> self.mints@[j].key@ != key@,
            },
    {
        let mut i: usize = 0;
        while i < self.mints.len()
            invariant
                i <= self.mints.len(),
                forall|j: int| 0 <= j < i ==> self.mints@[j].key@ != key@,
            decreases self.mints.len() - i,
        {
            if same_key(&self.mints[i].key, key) {
                return Some(i);
            }
            i = i + 1;
        }
        None
    }

    /// The index of `owner`'s holding of `mint`, if any.
    pub(crate) fn find_holding(&self, owner: &[u8; 32], mint: &[u8; 32]) -> (r: Option<usize>)
        ensures
            match r {
                Some(i) => i < self.holdings.len() && self.holdings@[i as int].key() == (owner@, mint@),
                None => forall|j: int| 0 <= j < self.holdings.len() ==> self.holdings@[j].key() != (owner@, mint@),
            },
    {
        let mut i: usize = 0;
        while i < self.holdings.len()
            invariant
                i <= self.holdings.len(),
                forall|j: int| 0 <= j < i ==> self.holdings@[j].key() != (owner@, mint@),
            decreases self.holdings.len() - i,
        {
            if same_key(&self.holdings[i].owner, owner) && same_key(&self.holdings[i].mint, mint) {
                return Some(i);
            }
            i = i + 1;
        }
        None
    }

    /// The index of the record at `address`, if any.
    pub(crate) fn find_record(&self, address: &[u8; 32]) -> (r: Option<usize>)
        ensures
            match r {
                Some(i) => i < self.records.len() && self.records@[i as int].address@ == address@,
                None => forall|j: int| 0 <= j < self.records.len() ==> self.records@[j].address@ != address@,
            },
    {
        let mut i: usize = 0;
        while i < self.records.len()
            invariant
                i <= self.records.len(),
                forall|j: int| 0 <= j < i ==> self.records@[j].address@ != address@,
            decreases self.records.len() - i,
        {
            if same_key(&self.records[i].address, address) {
                return Some(i);
            }
            i = i + 1;
        }
        None
    }

    /// The decimals of `mint`, if the mint exists.
    pub fn decimals(&self, mint: &[u8; 32]) -> (r: Option<u8>)
        requires
            self.wf(),
        ensures
            r == (if self@.decimals.contains_key(mint@) { Some(self@.decimals[mint@]) } else { None::<u8> }),
    {
        match self.find_mint(mint) {
            Some(i) => {
                proof { lemma_mint_at(self.mints@, i as int); }
                Some(self.mints[i].decimals)
            },
            None => {
                proof { lemma_mint_absent(self.mints@, mint@); }
                None
            },
        }
    }

    /// The balance of `owner`'s holding of `mint`, if the holding exists.
    pub fn balance(&self, owner: &[u8; 32], mint: &[u8; 32]) -> (r: Option<u64>)
        requires
            self.wf(),
        ensures
            r == (if self@.balances.contains_key((owner@, mint@)) { Some(self@.balances[(owner@, mint@)]) } else { None::<u64> }),
    {
        match self.find_holding(owner, mint) {
            Some(i) => {
                proof { lemma_holding_at(self.holdings@, i as int); }
                Some(self.holdings[i].amount)
            },
            None => {
                proof { lemma_holding_absent(self.holdings@, (owner@, mint@)); }
                None
            },
        }
    }

    /// The escrow record stored at `address`, if any.
    pub fn record(&self, address: &[u8; 32]) -> (r: Option<Escrow>)
        requires
            self.wf(),
        ensures
            r == (if self@.records.contains_key(address@) { Some(self@.records[address@]) } else { None::<Escrow> }),
    {
        match self.find_record(address) {
            Some(i) => {
                proof { lemma_record_at(self.records@, i as int); }
                Some(self.records[i].escrow)
            },
            None => {
                proof { lemma_record_absent(self.records@, address@); }
                None
            },
        }
    }

    /// Registers a new asset class.
    pub fn add_mint(&mut self, key: [u8; 32], decimals: u8) -> (r: Result<(), EscrowError>)
        requires
            old(self).wf(),
        ensures
            final(self).wf(),
            follows(
                if old(self)@.decimals.contains_key(key@) { Err(EscrowError::Duplicate) }
                else { Ok(LedgerView { decimals: old(self)@.decimals.insert(key@, decimals), ..old(self)@ }) },
                old(self)@, r, final(self)@),
    {
        if self.find_mint(&key).is_some() {
            return Err(EscrowError::Duplicate);
        }
        proof { lemma_mint_absent(self.mints@, key@); lemma_mint_push(self.mints@, Mint { key, decimals }); }
        self.mints.push(Mint { key, decimals });
        Ok(())
    }
    /// Moves `amount` units of `mint` from `from`'s holding to `to`'s
    /// holding, checking the stated decimals against the mint's.
    pub fn transfer_checked(&mut self, from: &[u8; 32], to: &[u8; 32], mint: &[u8; 32], amount: u64, decimals: u8) -> (r: Result<(), EscrowError>)
        requires
            old(self).wf(),
        ensures
            final(self).wf(),
            follows(transfer_outcome(old(self)@, from@, to@, mint@, amount, decimals), old(self)@, r, final(self)@),
    {
        let mi = match self.find_mint(mint) {
            Some(i) => i,
            None => {
                proof { lemma_mint_absent(self.mints@, mint@); }
                return Err(EscrowError::NotFound);
            },
        };
        proof { lemma_mint_at(self.mints@, mi as int); }
        if self.mints[mi].decimals != decimals {
            return Err(EscrowError::DecimalMismatch);
        }
        let fi = match self.find_holding(from, mint) {
            Some(i) => i,
            None => {
                proof { lemma_holding_absent(self.holdings@, (from@, mint@)); }
                return Err(EscrowError::NotFound);
            },
        };
        let ti = match self.find_holding(to, mint) {
            Some(i) => i,
            None => {
                proof { lemma_holding_absent(self.holdings@, (to@, mint@)); }
                return Err(EscrowError::NotFound);
            },
        };
        proof {
            lemma_holding_at(self.holdings@, fi as int);
            lemma_holding_at(self.holdings@, ti as int);
        }
        let fa = self.holdings[fi].amount;
        if fa < amount {
            return Err(EscrowError::InsufficientBalance);
        }
        if fi == ti {
            return Ok(());
        }
        assert(from@ != to@);
        let ta = self.holdings[ti].amount;
        if ta > u64::MAX - amount {
            return Err(EscrowError::Overflow);
        }
        let ghost s0 = self.holdings@;
        let mut hf = self.holdings[fi];
        hf.amount = fa - amount;
        proof { lemma_holding_update(s0, fi as int, hf); }
        self.holdings.set(fi, hf);
        let ghost s1 = self.holdings@;
        let mut ht = self.holdings[ti];
        ht.amount = ta + amount;
        proof { lemma_holding_update(s1, ti as int, ht); }
        self.holdings.set(ti, ht);
        Ok(())
    }

    /// Opens an empty holding of `mint` for `owner` unless it already has one.
    pub fn open_holding(&mut self, owner: &[u8; 32], mint: &[u8; 32]) -> (r: Result<(), EscrowError>)
        requires
            old(self).wf(),
        ensures
            final(self).wf(),
            follows(open_outcome(old(self)@, owner@, mint@), old(self)@, r, final(self)@),
    {
        if self.find_mint(mint).is_none() {
            proof { lemma_mint_absent(self.mints@, mint@); }
            return Err(EscrowError::NotFound);
        }
        match self.find_holding(owner, mint) {
            Some(i) => {
                proof { lemma_holding_at(self.holdings@, i as int); }
                Ok(())
            },
            None => {
                let h = Holding { owner: *owner, mint: *mint, amount: 0 };
                proof {
                    lemma_holding_absent(self.holdings@, (owner@, mint@));
                    lemma_holding_push(self.holdings@, h);
                }
                self.holdings.push(h);
                Ok(())
            },
        }
    }

    /// Closes `owner`'s holding of `mint`, which must be empty.
    pub fn close_holding(&mut self, owner: &[u8; 32], mint: &[u8; 32]) -> (r: Result<(), EscrowError>)
        requires
            old(self).wf(),
        ensures
            final(self).wf(),
            follows(close_outcome(old(self)@, owner@, mint@), old(self)@, r, final(self)@),
    {
        let i = match self.find_holding(owner, mint) {
            Some(i) => i,
            None => {
                proof { lemma_holding_absent(self.holdings@, (owner@, mint@)); }
                return Err(EscrowError::NotFound);
            },
        };
        proof {
            lemma_holding_at(self.holdings@, i as int);
            lemma_holding_remove(self.holdings@, i as int);
        }
        if self.holdings[i].amount != 0 {
            return Err(EscrowError::HoldingNotEmpty);
        }
        self.holdings.remove(i);
        Ok(())
    }

    /// Issues `amount` new units of `mint` into `owner`'s holding.
    pub fn issue(&mut self, owner: &[u8; 32], mint: &[u8; 32], amount: u64) -> (r: Result<(), EscrowError>)
        requires
            old(self).wf(),
        ensures
            final(self).wf(),
            follows(issue_outcome(old(self)@, owner@, mint@, amount), old(self)@, r, final(self)@),
    {
        if self.find_mint(mint).is_none() {
            proof { lemma_mint_absent(self.mints@, mint@); }
            return Err(EscrowError::NotFound);
        }
        let i = match self.find_holding(owner, mint) {
            Some(i) => i,
            None => {
                proof { lemma_holding_absent(self.holdings@, (owner@, mint@)); }
                return Err(EscrowError::NotFound);
            },
        };
        proof { lemma_holding_at(self.holdings@, i as int); }
        let a = self.holdings[i].amount;
        if a > u64::MAX - amount {
            return Err(EscrowError::Overflow);
        }
        let mut h = self.holdings[i];
        h.amount = a + amount;
        proof { lemma_holding_update(self.holdings@, i as int, h); }
        self.holdings.set(i, h);
        Ok(())
    }

    /// Stores a record at an address that holds none.
    pub(crate) fn insert_record(&mut self, rec: Record)
        requires
            old(self).wf(),
            !old(self)@.records.contains_key(rec.address@),
        ensures
            final(self).wf(),
            final(self)@ == with_records(old(self)@, old(self)@.records.insert(rec.address@, rec.escrow)),
    {
        proof { lemma_record_push(self.records@, rec); }
        self.records.push(rec);
    }

    /// Deletes the record stored at `address`, if any.
    pub(crate) fn remove_record(&mut self, address: &[u8; 32])
        requires
            old(self).wf(),
        ensures
            final(self).wf(),
            final(self)@ == with_records(old(self)@, old(self)@.records.remove(address@)),
    {
        match self.find_record(address) {
            Some(i) => {
                proof { lemma_record_remove(self.records@, i as int); }
                self.records.remove(i);
            },
            None => {
                proof { lemma_record_absent(self.records@, address@); }
                assert(old(self)@.records.remove(address@) =~= old(self)@.records);
            },
        }
    }
}

} // verus!
