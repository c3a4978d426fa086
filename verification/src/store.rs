use crate::ledger::{balance_in, ledger_wf, Ledger};
use crate::types::{deposit_of, DenError, Identity, Record, RecordView};
use vstd::prelude::*;

verus! {

// ---------------------------------------------------------------------------
// The record store. It owns the mapping from derived address to allocated
// slot: existence checks resolve on the address alone, and allocating a
// slot checks and debits the funding identity's storage deposit in the
// same step, so a failed allocation leaves nothing behind.
// ---------------------------------------------------------------------------

/// One allocated slot: the derived address, its nonce, and the record.
pub struct StoredRecord {
    pub addr: Vec<u8>,
    pub nonce: u8,
    pub rec: Record,
}

/// Mathematical image of a `StoredRecord`.
#[verifier::ext_equal]
pub ghost struct StoredView {
    pub addr: Seq<u8>,
    pub nonce: u8,
    pub rec: RecordView,
}

impl View for StoredRecord {
    type V = StoredView;

    open spec fn view(&self) -> StoredView {
        StoredView { addr: self.addr@, nonce: self.nonce, rec: self.rec@ }
    }
}

/// Index of the first slot at `addr`, scanning from index `i` on.
pub open spec fn find_from(s: Seq<StoredView>, addr: Seq<u8>, i: int) -> Option<int>
    decreases s.len() - i,
{
    if i < 0 || i >= s.len() {
        None
    } else if s[i].addr == addr {
        Some(i)
    } else {
        find_from(s, addr, i + 1)
    }
}

/// Index of the slot at `addr`, or `None` when the address is free.
pub open spec fn find_ix(s: Seq<StoredView>, addr: Seq<u8>) -> Option<int> {
    find_from(s, addr, 0)
}

/// A slot is allocated at `addr`.
pub open spec fn occupied(s: Seq<StoredView>, addr: Seq<u8>) -> bool {
    find_ix(s, addr) is Some
}

/// What a successful scan pins down, and what a failed one excludes.
pub proof fn lemma_find_from_props(s: Seq<StoredView>, addr: Seq<u8>, i: int)
    requires
        0 <= i,
    ensures
        match find_from(s, addr, i) {
            Some(k) => i <= k < s.len() && s[k].addr == addr && forall|j: int|
                i <= j < k ==> s[j].addr != addr,
            None => forall|j: int| i <= j < s.len() ==> s[j].addr != addr,
        },
    decreases s.len() - i,
{
    if i < s.len() && s[i].addr != addr {
        lemma_find_from_props(s, addr, i + 1);
    }
}

/// Appending a slot never disturbs an existing scan result: a fresh
/// address is found at the end, every other address as before.
pub proof fn lemma_find_push(s: Seq<StoredView>, e: StoredView, addr: Seq<u8>, i: int)
    requires
        0 <= i,
    ensures
        find_from(s.push(e), addr, i) == (match find_from(s, addr, i) {
            Some(k) => Some(k),
            None => if e.addr == addr && i <= s.len() {
                Some(s.len() as int)
            } else {
                None
            },
        }),
    decreases s.len() + 1 - i,
{
    if i < s.len() {
        assert(s.push(e)[i] == s[i]);
        lemma_find_push(s, e, addr, i + 1);
    } else if i == s.len() {
        assert(s.push(e)[i] == e);
        assert(find_from(s.push(e), addr, i + 1) is None);
        assert(find_from(s, addr, i) is None);
    } else {
        assert(find_from(s.push(e), addr, i) is None);
        assert(find_from(s, addr, i) is None);
    }
}

/// Replacing the slot at `k` by one with the same address moves a scan
/// for that address to the new slot and leaves every other scan alone.
pub proof fn lemma_find_update(s: Seq<StoredView>, k: int, e: StoredView, addr: Seq<u8>, i: int)
    requires
        0 <= i,
        0 <= k < s.len(),
        e.addr == s[k].addr,
        forall|j: int| 0 <= j < s.len() && j != k ==> s[j].addr != s[k].addr,
    ensures
        find_from(s.update(k, e), addr, i) == find_from(s, addr, i),
    decreases s.len() - i,
{
    if i < s.len() {
        if i != k {
            assert(s.update(k, e)[i] == s[i]);
        } else {
            assert(s.update(k, e)[i] == e);
        }
        lemma_find_update(s, k, e, addr, i + 1);
    }
}

/// The store: every allocated slot, in allocation order.
pub struct RecordStore {
    pub slots: Vec<StoredRecord>,
}

impl RecordStore {
    /// An empty store: every address is free.
    pub fn new() -> (r: RecordStore)
        ensures
            r@ == Seq::<StoredView>::empty(),
    {
        RecordStore { slots: Vec::new() }
    }

    pub open spec fn view(&self) -> Seq<StoredView> {
        Seq::new(self.slots@.len(), |i: int| self.slots@[i]@)
    }

    /// Index of the slot allocated at `addr`, if any.
    pub fn find(&self, addr: &Vec<u8>) -> (r: Option<usize>)
        ensures
            match r {
                Some(k) => find_ix(self@, addr@) == Some(k as int),
                None => find_ix(self@, addr@) is None,
            },
    {
        let mut k: usize = 0;
        while k < self.slots.len()
            invariant
                k <= self.slots.len(),
                find_ix(self@, addr@) == find_from(self@, addr@, k as int),
            decreases self.slots.len() - k,
        {
            if bytes_eq(&self.slots[k].addr, addr) {
                proof {
                    assert(self@[k as int].addr == addr@);
                }
                return Some(k);
            }
            proof {
                assert(self@[k as int].addr != addr@);
            }
            k = k + 1;
        }
        None
    }

    /// Whether a slot is already allocated at `addr`, resolved on the
    /// address alone, without reading any record.
    pub fn exists_at(&self, addr: &Vec<u8>) -> (r: bool)
        ensures
            r == occupied(self@, addr@),
    {
        self.find(addr).is_some()
    }

    /// Allocates a slot for the record, paid for by `funder`: the deposit
    /// for the record's full size is checked against the funder's balance
    /// and debited in the same step. On `InsufficientFunds` neither the
    /// store nor the ledger changes. The caller has checked the address.
    pub fn allocate(&mut self, slot: StoredRecord, ledger: &mut Ledger, funder: Identity) -> (r:
        Result<(), DenError>)
        requires
            ledger_wf(old(ledger)@),
        ensures
            ledger_wf(final(ledger)@),
            ({
                let dep = deposit_of(slot@.rec);
                if balance_in(old(ledger)@, funder) >= dep {
                    &&& r is Ok
                    &&& final(self)@ == old(self)@.push(slot@)
                    &&& balance_in(final(ledger)@, funder) == balance_in(old(ledger)@, funder)
                        - dep
                    &&& forall|other: Identity|
                        other != funder ==> balance_in(final(ledger)@, other) == balance_in(
                            old(ledger)@,
                            other,
                        )
                } else {
                    &&& r == Err::<(), DenError>(DenError::InsufficientFunds)
                    &&& final(self)@ == old(self)@
                    &&& final(ledger)@ == old(ledger)@
                }
            }),
    {
        let dep = slot.rec.required_size();
        let bal = ledger.balance_of(funder);
        if (bal as u128) < dep {
            return Err(DenError::InsufficientFunds);
        }
        ledger.debit(funder, dep as u64);
        let ghost pre = self@;
        self.slots.push(slot);
        proof {
            assert(final(self)@ =~= pre.push(slot@));
        }
        Ok(())
    }
}

/// Byte-for-byte copy of a byte vector.
pub fn bytes_copy(a: &Vec<u8>) -> (r: Vec<u8>)
    ensures
        r@ == a@,
{
    let mut r: Vec<u8> = Vec::new();
    let mut i: usize = 0;
    while i < a.len()
        invariant
            i <= a.len(),
            r@ =~= a@.take(i as int),
        decreases a.len() - i,
    {
        r.push(a[i]);
        i = i + 1;
    }
    proof {
        assert(r@ =~= a@);
    }
    r
}

/// Byte-for-byte equality of two byte vectors.
pub fn bytes_eq(a: &Vec<u8>, b: &Vec<u8>) -> (r: bool)
    ensures
        r == (a@ == b@),
{
    if a.len() != b.len() {
        return false;
    }
    let mut i: usize = 0;
    while i < a.len()
        invariant
            i <= a.len(),
            a@.len() == b@.len(),
            forall|j: int| 0 <= j < i ==> a@[j] == b@[j],
        decreases a.len() - i,
    {
        if a[i] != b[i] {
            return false;
        }
        i = i + 1;
    }
    proof {
        assert(a@ =~= b@);
    }
    true
}

} // verus!
