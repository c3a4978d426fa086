use crate::address::{
    derive_norm, derive_of, find_pda, lemma_trimmed_idempotent, program_tag_bytes,
    seed_prefix_bytes, sha256, sha256_of, trim_bytes, trimmed, DerivedView,
};
use crate::ledger::{balance_in, ledger_wf, Ledger};
use crate::rewards::{accrue, payouts_for};
use crate::store::{
    bytes_copy, bytes_eq, find_ix, lemma_find_from_props, RecordStore, StoredRecord, StoredView,
};
use crate::types::{
    cast_vote, deposit_of, fresh_record, has_voted, wf_record, DenError, Identity, Payload,
    PayloadView, Record, RecordView, Status, REJECT_THRESHOLD, VERIFY_THRESHOLD,
};
use vstd::prelude::*;

verus! {

// ---------------------------------------------------------------------------
// The record machine. One value of `Den` holds every allocated record slot
// and the funding ledger; `submit_record` and `vote_on_record` are its two
// mutating operations, and each is pinned to a spec-level transition
// (`submit_step`, `vote_step`) over the store's mathematical image. The
// enclosing execution environment must serialize operations that touch the
// same address; each operation commits fully or fails changing nothing.
// ---------------------------------------------------------------------------

/// Receipt a successful submission returns: the record's storage address
/// with its nonce, and a derived transaction identifier. The identifier is
/// informational only and is never to be used for addressing.
#[derive(Debug)]
pub struct Receipt {
    pub addr: Vec<u8>,
    pub nonce: u8,
    pub tx_id: Vec<u8>,
}

/// Mathematical image of a `Receipt`.
#[verifier::ext_equal]
pub ghost struct ReceiptView {
    pub addr: Seq<u8>,
    pub nonce: u8,
    pub tx_id: Seq<u8>,
}

impl View for Receipt {
    type V = ReceiptView;

    open spec fn view(&self) -> ReceiptView {
        ReceiptView { addr: self.addr@, nonce: self.nonce, tx_id: self.tx_id@ }
    }
}

/// What a successful vote returns: the record's status after the vote and
/// the reward deltas the vote triggered, empty unless it finalized the
/// record.
#[derive(Debug)]
pub struct VoteOutcome {
    pub status: Status,
    pub payouts: Vec<(Identity, u64)>,
}

/// Mathematical image of a `VoteOutcome`.
#[verifier::ext_equal]
pub ghost struct VoteOutcomeView {
    pub status: Status,
    pub payouts: Seq<(Identity, u64)>,
}

impl View for VoteOutcome {
    type V = VoteOutcomeView;

    open spec fn view(&self) -> VoteOutcomeView {
        VoteOutcomeView { status: self.status, payouts: self.payouts@ }
    }
}

/// Image of a submission result over plain values.
pub open spec fn submit_res(r: Result<Receipt, DenError>) -> Result<ReceiptView, DenError> {
    match r {
        Ok(x) => Ok(x@),
        Err(e) => Err(e),
    }
}

/// Image of a vote result over plain values.
pub open spec fn vote_res(r: Result<VoteOutcome, DenError>) -> Result<VoteOutcomeView, DenError> {
    match r {
        Ok(x) => Ok(x@),
        Err(e) => Err(e),
    }
}

/// Invariant of the store's slots: every record is well formed, holds its
/// key in normalized form, sits at the address derived from that key, and
/// no two slots share an address.
pub open spec fn entries_wf(s: Seq<StoredView>) -> bool {
    &&& forall|i: int| 0 <= i < s.len() ==> wf_record(#[trigger] s[i].rec)
    &&& forall|i: int|
        0 <= i < s.len() ==> trimmed(#[trigger] s[i].rec.content_key) == s[i].rec.content_key
    &&& forall|i: int|
        0 <= i < s.len() ==> derive_norm(#[trigger] s[i].rec.content_key) == Some(
            DerivedView { addr: s[i].addr, nonce: s[i].nonce },
        )
    &&& forall|i: int, j: int| 0 <= i < j < s.len() ==> s[i].addr != s[j].addr
}

/// The submission transition over the store's image: normalize the key,
/// derive its address, refuse an occupied address, then refuse a funder
/// whose balance misses the deposit, and otherwise append the fresh
/// record. Every failure leaves the entries exactly as they were.
pub open spec fn submit_step(
    entries: Seq<StoredView>,
    accounts: Seq<(Identity, u64)>,
    key: Seq<u8>,
    p: PayloadView,
    submitter: Identity,
) -> (Seq<StoredView>, Result<ReceiptView, DenError>) {
    let k = trimmed(key);
    match derive_norm(k) {
        None => (entries, Err(DenError::DerivationFailed)),
        Some(d) => {
            if find_ix(entries, d.addr) is Some {
                (entries, Err(DenError::DuplicateRecord))
            } else {
                let rec = fresh_record(k, p, submitter);
                if balance_in(accounts, submitter) < deposit_of(rec) {
                    (entries, Err(DenError::InsufficientFunds))
                } else {
                    (
                        entries.push(StoredView { addr: d.addr, nonce: d.nonce, rec }),
                        Ok(ReceiptView { addr: d.addr, nonce: d.nonce, tx_id: sha256_of(k) }),
                    )
                }
            }
        },
    }
}

/// The vote transition over the store's image: derive the key's address,
/// then refuse in order a free address, a finalized record, a self-vote
/// and a repeated voter; otherwise append the vote, flip the status at the
/// threshold, and report the reward deltas the vote triggered. Every
/// failure leaves the entries exactly as they were.
pub open spec fn vote_step(
    entries: Seq<StoredView>,
    key: Seq<u8>,
    approve: bool,
    voter: Identity,
) -> (Seq<StoredView>, Result<VoteOutcomeView, DenError>) {
    let k = trimmed(key);
    match derive_norm(k) {
        None => (entries, Err(DenError::DerivationFailed)),
        Some(d) => {
            match find_ix(entries, d.addr) {
                None => (entries, Err(DenError::RecordNotFound)),
                Some(i) => {
                    let r = entries[i].rec;
                    if r.status != Status::Unverified {
                        (entries, Err(DenError::AlreadyProcessed))
                    } else if voter == r.submitter {
                        (entries, Err(DenError::SelfVote))
                    } else if has_voted(r, voter) {
                        (entries, Err(DenError::DuplicateVote))
                    } else {
                        let r2 = cast_vote(r, approve, voter);
                        (
                            entries.update(
                                i,
                                StoredView { addr: entries[i].addr, nonce: entries[i].nonce, rec: r2 },
                            ),
                            Ok(VoteOutcomeView { status: r2.status, payouts: payouts_for(r2) }),
                        )
                    }
                },
            }
        },
    }
}

/// The records submitted by `owner` among the entries from index `i` on,
/// in allocation order.
pub open spec fn owned_from(s: Seq<StoredView>, owner: Identity, i: int) -> Seq<RecordView>
    decreases s.len() - i,
{
    if i < 0 || i >= s.len() {
        Seq::empty()
    } else if s[i].rec.submitter == owner {
        seq![s[i].rec] + owned_from(s, owner, i + 1)
    } else {
        owned_from(s, owner, i + 1)
    }
}

/// The records submitted by `owner`, in allocation order.
pub open spec fn owned_records(s: Seq<StoredView>, owner: Identity) -> Seq<RecordView> {
    owned_from(s, owner, 0)
}

/// The record the store holds for a content key, if any.
pub open spec fn get_spec(entries: Seq<StoredView>, key: Seq<u8>) -> Option<RecordView> {
    match derive_of(key) {
        None => None,
        Some(d) => match find_ix(entries, d.addr) {
            Some(i) => Some(entries[i].rec),
            None => None,
        },
    }
}

/// The shared store: allocated record slots plus the funding ledger.
pub struct Den {
    pub store: RecordStore,
    pub ledger: Ledger,
}

impl Den {
    /// Image of the allocated slots, in allocation order.
    pub open spec fn entries(&self) -> Seq<StoredView> {
        self.store@
    }

    /// Image of the funding ledger.
    pub open spec fn accounts(&self) -> Seq<(Identity, u64)> {
        self.ledger@
    }

    /// Invariant of the whole machine.
    pub open spec fn wf(&self) -> bool {
        entries_wf(self.entries()) && ledger_wf(self.accounts())
    }

    /// An empty machine: no records, every balance zero.
    pub fn new() -> (r: Den)
        ensures
            r.wf(),
            r.entries() == Seq::<StoredView>::empty(),
            r.accounts() == Seq::<(Identity, u64)>::empty(),
    {
        Den { store: RecordStore::new(), ledger: Ledger::new() }
    }

    /// Sets the funding balance of `id`; every other balance and every
    /// record is untouched.
    pub fn set_balance(&mut self, id: Identity, amount: u64)
        requires
            old(self).wf(),
        ensures
            final(self).wf(),
            final(self).entries() == old(self).entries(),
            balance_in(final(self).accounts(), id) == amount,
            forall|other: Identity|
                other != id ==> balance_in(final(self).accounts(), other) == balance_in(
                    old(self).accounts(),
                    other,
                ),
    {
        self.ledger.set_balance(id, amount);
    }

    /// Current funding balance of `id`.
    pub fn balance_of(&self, id: Identity) -> (r: u64)
        requires
            self.wf(),
        ensures
            r == balance_in(self.accounts(), id),
    {
        self.ledger.balance_of(id)
    }

    /// Submits a new record under `content_key`, paid for by `submitter`.
    ///
    /// The key is normalized, its address derived, and the record is
    /// created exactly when the address is free and the submitter's
    /// balance covers the storage deposit for the record's full size;
    /// `submit_step` pins the outcome and the new entries for every input.
    /// On success the deposit is debited; on failure nothing changes.
    pub fn submit_record(&mut self, content_key: &Vec<u8>, payload: Payload, submitter: Identity)
        -> (r: Result<Receipt, DenError>)
        requires
            old(self).wf(),
        ensures
            final(self).wf(),
            (final(self).entries(), submit_res(r)) == submit_step(
                old(self).entries(),
                old(self).accounts(),
                content_key@,
                payload@,
                submitter,
            ),
            r is Ok ==> {
                let dep = deposit_of(fresh_record(trimmed(content_key@), payload@, submitter));
                &&& balance_in(final(self).accounts(), submitter) == balance_in(
                    old(self).accounts(),
                    submitter,
                ) - dep
                &&& forall|other: Identity|
                    other != submitter ==> balance_in(final(self).accounts(), other) == balance_in(
                        old(self).accounts(),
                        other,
                    )
            },
            r is Err ==> final(self).accounts() == old(self).accounts(),
    {
        let ghost pre = self.entries();
        let norm = trim_bytes(content_key);
        let digest = sha256(&norm);
        let prefix = seed_prefix_bytes();
        let tag = program_tag_bytes();
        match find_pda(&prefix, &digest, &tag) {
            None => Err(DenError::DerivationFailed),
            Some(pair) => {
                let addr = pair.0;
                let nonce = pair.1;
                proof {
                    assert(derive_norm(norm@) == Some(
                        DerivedView { addr: addr@, nonce: nonce },
                    ));
                }
                match self.store.find(&addr) {
                    Some(_) => Err(DenError::DuplicateRecord),
                    None => {
                        let addr_copy = bytes_copy(&addr);
                        let rec = Record {
                            content_key: norm,
                            payload,
                            submitter,
                            status: Status::Unverified,
                            verifiers: Vec::new(),
                            rejecters: Vec::new(),
                        };
                        proof {
                            assert(rec@ =~= fresh_record(trimmed(content_key@), payload@, submitter));
                        }
                        let slot = StoredRecord { addr, nonce, rec };
                        let ghost slot_view = slot@;
                        match self.store.allocate(slot, &mut self.ledger, submitter) {
                            Err(e) => Err(e),
                            Ok(()) => {
                                proof {
                                    lemma_find_from_props(pre, slot_view.addr, 0);
                                    lemma_trimmed_idempotent(content_key@);
                                    lemma_entries_wf_push(pre, slot_view);
                                }
                                Ok(Receipt { addr: addr_copy, nonce, tx_id: digest })
                            },
                        }
                    },
                }
            },
        }
    }

    /// Casts a vote, approve or reject, by `voter` on the record stored
    /// under `content_key`.
    ///
    /// The vote is appended exactly when the record exists, is still
    /// unverified, the voter is not its submitter and has not voted on it
    /// before; `vote_step` pins the outcome, the updated record and the
    /// reward deltas for every input. The third distinct approve vote
    /// finalizes the record as verified, the second distinct reject vote
    /// as rejected; the funding ledger is never touched. On failure
    /// nothing changes.
    pub fn vote_on_record(&mut self, content_key: &Vec<u8>, approve: bool, voter: Identity) -> (r:
        Result<VoteOutcome, DenError>)
        requires
            old(self).wf(),
        ensures
            final(self).wf(),
            (final(self).entries(), vote_res(r)) == vote_step(
                old(self).entries(),
                content_key@,
                approve,
                voter,
            ),
            final(self).accounts() == old(self).accounts(),
    {
        let ghost pre = self.entries();
        let norm = trim_bytes(content_key);
        let digest = sha256(&norm);
        let prefix = seed_prefix_bytes();
        let tag = program_tag_bytes();
        match find_pda(&prefix, &digest, &tag) {
            None => Err(DenError::DerivationFailed),
            Some(pair) => {
                let addr = pair.0;
                match self.store.find(&addr) {
                    None => Err(DenError::RecordNotFound),
                    Some(i) => {
                        proof {
                            lemma_find_from_props(pre, addr@, 0);
                        }
                        if !status_is_unverified(&self.store.slots[i].rec) {
                            return Err(DenError::AlreadyProcessed);
                        }
                        if self.store.slots[i].rec.submitter == voter {
                            return Err(DenError::SelfVote);
                        }
                        if contains_id(&self.store.slots[i].rec.verifiers, voter) || contains_id(
                            &self.store.slots[i].rec.rejecters,
                            voter,
                        ) {
                            return Err(DenError::DuplicateVote);
                        }
                        let ghost old_rec = pre[i as int].rec;
                        let ghost pre_slots = self.store.slots@;
                        let mut slot = self.store.slots.remove(i);
                        if approve {
                            slot.rec.verifiers.push(voter);
                            if slot.rec.verifiers.len() == VERIFY_THRESHOLD {
                                slot.rec.status = Status::Verified;
                            }
                        } else {
                            slot.rec.rejecters.push(voter);
                            if slot.rec.rejecters.len() == REJECT_THRESHOLD {
                                slot.rec.status = Status::Rejected;
                            }
                        }
                        proof {
                            assert(slot@.rec =~= cast_vote(old_rec, approve, voter));
                        }
                        let payouts = accrue(
                            slot.rec.status,
                            slot.rec.submitter,
                            &slot.rec.verifiers,
                            &slot.rec.rejecters,
                        );
                        let status = slot.rec.status;
                        let ghost new_slot = slot@;
                        self.store.slots.insert(i, slot);
                        proof {
                            assert(self.store.slots@ =~= pre_slots.update(i as int, self.store.slots@[i as int]));
                            assert(self.entries() =~= pre.update(i as int, new_slot));
                            lemma_cast_vote_wf(old_rec, approve, voter);
                            lemma_entries_wf_update(pre, i as int, new_slot);
                        }
                        Ok(VoteOutcome { status, payouts })
                    },
                }
            },
        }
    }

    /// The record stored under `content_key`, if any.
    pub fn get_record(&self, content_key: &Vec<u8>) -> (r: Option<&Record>)
        ensures
            match r {
                Some(rec) => get_spec(self.entries(), content_key@) == Some(rec@),
                None => get_spec(self.entries(), content_key@) is None,
            },
    {
        let norm = trim_bytes(content_key);
        let digest = sha256(&norm);
        let prefix = seed_prefix_bytes();
        let tag = program_tag_bytes();
        match find_pda(&prefix, &digest, &tag) {
            None => None,
            Some(pair) => {
                match self.store.find(&pair.0) {
                    None => None,
                    Some(i) => {
                        proof {
                            lemma_find_from_props(self.entries(), pair.0@, 0);
                        }
                        Some(&self.store.slots[i].rec)
                    },
                }
            },
        }
    }
    /// Every record submitted by `owner`, in allocation order.
    pub fn list_records_by_owner(&self, owner: Identity) -> (r: Vec<&Record>)
        ensures
            r@.map_values(|rr: &Record| rr@) == owned_records(self.entries(), owner),
    {
        let ghost f = |rr: &Record| rr@;
        let ghost all = owned_records(self.entries(), owner);
        let mut out: Vec<&Record> = Vec::new();
        let mut i: usize = 0;
        proof {
            assert(out@.map_values(f) + owned_from(self.entries(), owner, 0) =~= all);
        }
        while i < self.store.slots.len()
            invariant
                i <= self.store.slots.len(),
                all == owned_records(self.entries(), owner),
                f == (|rr: &Record| rr@),
                out@.map_values(f) + owned_from(self.entries(), owner, i as int) =~= all,
            decreases self.store.slots.len() - i,
        {
            let ghost pre_map = out@.map_values(f);
            if self.store.slots[i].rec.submitter == owner {
                out.push(&self.store.slots[i].rec);
                proof {
                    assert(self.entries()[i as int].rec == self.store.slots@[i as int]@.rec);
                    assert(out@.map_values(f) =~= pre_map.push(self.entries()[i as int].rec));
                    assert(out@.map_values(f) + owned_from(self.entries(), owner, i + 1) =~= all);
                }
            } else {
                proof {
                    assert(owned_from(self.entries(), owner, i as int) == owned_from(
                        self.entries(),
                        owner,
                        i + 1,
                    ));
                }
            }
            i = i + 1;
        }
        proof {
            assert(owned_from(self.entries(), owner, i as int) =~= Seq::<RecordView>::empty());
            assert(out@.map_values(f) =~= all);
        }
        out
    }
}

/// Confirms that a caller-supplied address is the one derived from the
/// content key, guarding against spoofed references.
pub fn confirm_address(content_key: &Vec<u8>, claimed: &Vec<u8>) -> (r: Result<(), DenError>)
    ensures
        match derive_of(content_key@) {
            None => r == Err::<(), DenError>(DenError::DerivationFailed),
            Some(d) => r == if claimed@ == d.addr {
                Ok::<(), DenError>(())
            } else {
                Err::<(), DenError>(DenError::AddressMismatch)
            },
        },
{
    match crate::address::derive(content_key) {
        None => Err(DenError::DerivationFailed),
        Some(d) => {
            if bytes_eq(claimed, &d.addr) {
                Ok(())
            } else {
                Err(DenError::AddressMismatch)
            }
        },
    }
}

/// Whether the record is still open for votes.
fn status_is_unverified(r: &Record) -> (b: bool)
    ensures
        b == (r@.status == Status::Unverified),
{
    match r.status {
        Status::Unverified => true,
        Status::Verified => false,
        Status::Rejected => false,
    }
}

/// Whether `id` occurs in the vote set.
fn contains_id(v: &Vec<Identity>, id: Identity) -> (r: bool)
    ensures
        r == v@.contains(id),
{
    let mut k: usize = 0;
    while k < v.len()
        invariant
            k <= v.len(),
            forall|j: int| 0 <= j < k ==> v@[j] != id,
        decreases v.len() - k,
    {
        if v[k] == id {
            return true;
        }
        k = k + 1;
    }
    proof {
        assert(!v@.contains(id));
    }
    false
}

/// A fresh, well-formed slot whose address is new keeps the store's
/// invariant when appended.
pub proof fn lemma_entries_wf_push(s: Seq<StoredView>, e: StoredView)
    requires
        entries_wf(s),
        wf_record(e.rec),
        trimmed(e.rec.content_key) == e.rec.content_key,
        derive_norm(e.rec.content_key) == Some(DerivedView { addr: e.addr, nonce: e.nonce }),
        forall|j: int| 0 <= j < s.len() ==> s[j].addr != e.addr,
    ensures
        entries_wf(s.push(e)),
{
    let t = s.push(e);
    assert forall|i: int| 0 <= i < t.len() implies wf_record(#[trigger] t[i].rec) by {
        if i < s.len() {
            assert(t[i] == s[i]);
        } else {
            assert(t[i] == e);
        }
    }
    assert forall|i: int| 0 <= i < t.len() implies trimmed(#[trigger] t[i].rec.content_key)
        == t[i].rec.content_key by {
        if i < s.len() {
            assert(t[i] == s[i]);
        } else {
            assert(t[i] == e);
        }
    }
    assert forall|i: int| 0 <= i < t.len() implies derive_norm(#[trigger] t[i].rec.content_key)
        == Some(DerivedView { addr: t[i].addr, nonce: t[i].nonce }) by {
        if i < s.len() {
            assert(t[i] == s[i]);
        } else {
            assert(t[i] == e);
        }
    }
    assert forall|i: int, j: int| 0 <= i < j < t.len() implies t[i].addr != t[j].addr by {
        if j < s.len() {
            assert(t[i] == s[i] && t[j] == s[j]);
        } else {
            assert(t[i] == s[i] && t[j] == e);
        }
    }
}

/// Replacing a slot by a well-formed one at the same address and key
/// keeps the store's invariant.
pub proof fn lemma_entries_wf_update(s: Seq<StoredView>, k: int, e: StoredView)
    requires
        entries_wf(s),
        0 <= k < s.len(),
        e.addr == s[k].addr,
        e.nonce == s[k].nonce,
        e.rec.content_key == s[k].rec.content_key,
        wf_record(e.rec),
    ensures
        entries_wf(s.update(k, e)),
{
    let t = s.update(k, e);
    assert forall|i: int| 0 <= i < t.len() implies wf_record(#[trigger] t[i].rec) by {
        if i != k {
            assert(t[i] == s[i]);
        } else {
            assert(t[i] == e);
        }
    }
    assert forall|i: int| 0 <= i < t.len() implies trimmed(#[trigger] t[i].rec.content_key)
        == t[i].rec.content_key by {
        if i != k {
            assert(t[i] == s[i]);
        } else {
            assert(t[i] == e);
        }
    }
    assert forall|i: int| 0 <= i < t.len() implies derive_norm(#[trigger] t[i].rec.content_key)
        == Some(DerivedView { addr: t[i].addr, nonce: t[i].nonce }) by {
        if i != k {
            assert(t[i] == s[i]);
        } else {
            assert(t[i] == e);
        }
    }
    assert forall|i: int, j: int| 0 <= i < j < t.len() implies t[i].addr != t[j].addr by {
        assert(s[i].addr != s[j].addr);
    }
}

/// A legal vote keeps the record well formed: the chosen side grows by
/// the one fresh voter and the status flips exactly at the threshold.
pub proof fn lemma_cast_vote_wf(r: RecordView, approve: bool, voter: Identity)
    requires
        wf_record(r),
        r.status == Status::Unverified,
        voter != r.submitter,
        !has_voted(r, voter),
    ensures
        wf_record(cast_vote(r, approve, voter)),
{
    let r2 = cast_vote(r, approve, voter);
    if approve {
        assert(r.verifiers.len() < VERIFY_THRESHOLD);
        assert forall|i: int, j: int| 0 <= i < j < r2.verifiers.len() implies r2.verifiers[i]
            != r2.verifiers[j] by {
            if j < r.verifiers.len() {
            } else {
                assert(r2.verifiers[j] == voter);
                assert(r.verifiers.contains(r.verifiers[i]));
            }
        }
        assert forall|id: Identity| #[trigger]
            r2.verifiers.contains(id) && #[trigger] r2.rejecters.contains(id) implies false by {
            let i = choose|i: int| 0 <= i < r2.verifiers.len() && r2.verifiers[i] == id;
            if i < r.verifiers.len() {
                assert(r.verifiers.contains(id));
            } else {
                assert(id == voter);
            }
        }
        assert(!has_voted(r2, r2.submitter)) by {
            if r2.verifiers.contains(r2.submitter) {
                let i = choose|i: int|
                    0 <= i < r2.verifiers.len() && r2.verifiers[i] == r2.submitter;
                if i < r.verifiers.len() {
                    assert(r.verifiers.contains(r.submitter));
                }
            }
        }
    } else {
        assert(r.rejecters.len() < REJECT_THRESHOLD);
        assert forall|i: int, j: int| 0 <= i < j < r2.rejecters.len() implies r2.rejecters[i]
            != r2.rejecters[j] by {
            if j < r.rejecters.len() {
            } else {
                assert(r2.rejecters[j] == voter);
                assert(r.rejecters.contains(r.rejecters[i]));
            }
        }
        assert forall|id: Identity| #[trigger]
            r2.verifiers.contains(id) && #[trigger] r2.rejecters.contains(id) implies false by {
            let i = choose|i: int| 0 <= i < r2.rejecters.len() && r2.rejecters[i] == id;
            if i < r.rejecters.len() {
                assert(r.rejecters.contains(id));
            } else {
                assert(id == voter);
            }
        }
        assert(!has_voted(r2, r2.submitter)) by {
            if r2.rejecters.contains(r2.submitter) {
                let i = choose|i: int|
                    0 <= i < r2.rejecters.len() && r2.rejecters[i] == r2.submitter;
                if i < r.rejecters.len() {
                    assert(r.rejecters.contains(r.submitter));
                }
            }
        }
    }
}

} // verus!
