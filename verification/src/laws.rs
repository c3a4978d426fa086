use crate::address::{derive_norm, trimmed};
use crate::den::{entries_wf, get_spec, submit_step, vote_step, ReceiptView, VoteOutcomeView};
use crate::ledger::balance_in;
use crate::store::{find_ix, lemma_find_from_props, lemma_find_push, lemma_find_update, StoredView};
use crate::types::{
    cast_vote, fresh_record, has_voted, DenError, Identity, PayloadView, Status,
    REJECT_THRESHOLD, VERIFY_THRESHOLD,
};
use vstd::prelude::*;

verus! {

// ---------------------------------------------------------------------------
// The laws of the record machine, stated once over the spec transitions
// that `Den::submit_record` and `Den::vote_on_record` are pinned to.
// ---------------------------------------------------------------------------

/// Uniqueness: after a successful submission under a content key, any
/// second submission under the same key, by anyone with any payload, fails
/// with `DuplicateRecord`, and the stored records, the first record's
/// payload among them, are exactly as the first submission left them.
pub proof fn lemma_resubmit_is_duplicate(
    entries: Seq<StoredView>,
    accounts: Seq<(Identity, u64)>,
    key: Seq<u8>,
    p1: PayloadView,
    sub1: Identity,
    accounts2: Seq<(Identity, u64)>,
    p2: PayloadView,
    sub2: Identity,
)
    requires
        submit_step(entries, accounts, key, p1, sub1).1 is Ok,
    ensures
        ({
            let s1 = submit_step(entries, accounts, key, p1, sub1).0;
            let second = submit_step(s1, accounts2, key, p2, sub2);
            &&& second.1 == Err::<ReceiptView, DenError>(DenError::DuplicateRecord)
            &&& second.0 == s1
            &&& s1[s1.len() - 1].rec == fresh_record(trimmed(key), p1, sub1)
        }),
{
    let k = trimmed(key);
    let d = derive_norm(k)->Some_0;
    let e = StoredView { addr: d.addr, nonce: d.nonce, rec: fresh_record(k, p1, sub1) };
    lemma_find_push(entries, e, d.addr, 0);
}

/// Self-vote rejection: a vote on an existing, still unverified record by
/// its own submitter always fails with `SelfVote` and changes nothing.
pub proof fn lemma_self_vote_rejected(
    entries: Seq<StoredView>,
    key: Seq<u8>,
    approve: bool,
    voter: Identity,
)
    requires
        get_spec(entries, key) matches Some(r) && r.status == Status::Unverified && voter
            == r.submitter,
    ensures
        vote_step(entries, key, approve, voter) == (
            entries,
            Err::<VoteOutcomeView, DenError>(DenError::SelfVote),
        ),
{
}

/// Duplicate-vote rejection: after one successful vote, a second vote by
/// the same voter on the same record, on either side, always fails — with
/// `DuplicateVote` while the record is still unverified, and with
/// `AlreadyProcessed` when that first vote finalized it — and changes
/// nothing.
pub proof fn lemma_second_vote_rejected(
    entries: Seq<StoredView>,
    key: Seq<u8>,
    first_approve: bool,
    voter: Identity,
    second_approve: bool,
)
    requires
        entries_wf(entries),
        vote_step(entries, key, first_approve, voter).1 is Ok,
    ensures
        ({
            let s1 = vote_step(entries, key, first_approve, voter).0;
            let out1 = vote_step(entries, key, first_approve, voter).1->Ok_0;
            let second = vote_step(s1, key, second_approve, voter);
            &&& second.0 == s1
            &&& second.1 == Err::<VoteOutcomeView, DenError>(
                if out1.status == Status::Unverified {
                    DenError::DuplicateVote
                } else {
                    DenError::AlreadyProcessed
                },
            )
        }),
{
    let k = trimmed(key);
    let d = derive_norm(k)->Some_0;
    let i = find_ix(entries, d.addr)->Some_0;
    lemma_find_from_props(entries, d.addr, 0);
    let r = entries[i].rec;
    let r2 = cast_vote(r, first_approve, voter);
    let e2 = StoredView { addr: entries[i].addr, nonce: entries[i].nonce, rec: r2 };
    let s1 = entries.update(i, e2);
    assert forall|j: int| 0 <= j < entries.len() && j != i implies entries[j].addr
        != entries[i].addr by {
        if j < i {
            assert(entries[j].addr != entries[i].addr);
        } else {
            assert(entries[i].addr != entries[j].addr);
        }
    }
    lemma_find_update(entries, i, e2, d.addr, 0);
    assert(find_ix(s1, d.addr) == Some(i));
    assert(s1[i].rec == r2);
    if r2.status == Status::Unverified {
        if first_approve {
            assert(r2.verifiers[r2.verifiers.len() - 1] == voter);
            assert(r2.verifiers.contains(voter));
        } else {
            assert(r2.rejecters[r2.rejecters.len() - 1] == voter);
            assert(r2.rejecters.contains(voter));
        }
        assert(has_voted(r2, voter));
    }
}

/// Threshold exactness: a legal vote always succeeds, and the record
/// becomes `Verified` exactly when it is the approve vote that fills the
/// verifier set to its threshold, `Rejected` exactly when it is the reject
/// vote that fills the rejecter set to its threshold, and stays
/// `Unverified` otherwise.
pub proof fn lemma_threshold_exactness(
    entries: Seq<StoredView>,
    key: Seq<u8>,
    approve: bool,
    voter: Identity,
)
    requires
        get_spec(entries, key) matches Some(r) && r.status == Status::Unverified && voter
            != r.submitter && !has_voted(r, voter),
    ensures
        vote_step(entries, key, approve, voter).1 is Ok,
        ({
            let r = get_spec(entries, key)->Some_0;
            let out = vote_step(entries, key, approve, voter).1->Ok_0;
            &&& (out.status == Status::Verified <==> approve && r.verifiers.len() + 1
                == VERIFY_THRESHOLD)
            &&& (out.status == Status::Rejected <==> !approve && r.rejecters.len() + 1
                == REJECT_THRESHOLD)
        }),
{
}

/// Post-finalization immutability: once a record's status is terminal,
/// every further vote on it, by anyone on either side, fails with
/// `AlreadyProcessed` and changes nothing, the vote sets included.
pub proof fn lemma_finalized_immutable(
    entries: Seq<StoredView>,
    key: Seq<u8>,
    approve: bool,
    voter: Identity,
)
    requires
        get_spec(entries, key) matches Some(r) && r.status != Status::Unverified,
    ensures
        vote_step(entries, key, approve, voter) == (
            entries,
            Err::<VoteOutcomeView, DenError>(DenError::AlreadyProcessed),
        ),
{
}

/// Submission keeps the store's invariant: every reachable state has well
/// formed records at their derived addresses, one per address.
pub proof fn lemma_submit_preserves_wf(
    entries: Seq<StoredView>,
    accounts: Seq<(Identity, u64)>,
    key: Seq<u8>,
    p: PayloadView,
    submitter: Identity,
)
    requires
        entries_wf(entries),
    ensures
        entries_wf(submit_step(entries, accounts, key, p, submitter).0),
{
    let k = trimmed(key);
    if derive_norm(k) is Some {
        let d = derive_norm(k)->Some_0;
        if find_ix(entries, d.addr) is None {
            let rec = fresh_record(k, p, submitter);
            if balance_in(accounts, submitter) >= crate::types::deposit_of(rec) {
                let e = StoredView { addr: d.addr, nonce: d.nonce, rec };
                lemma_find_from_props(entries, d.addr, 0);
                crate::address::lemma_trimmed_idempotent(key);
                crate::den::lemma_entries_wf_push(entries, e);
            }
        }
    }
}

/// Voting keeps the store's invariant.
pub proof fn lemma_vote_preserves_wf(
    entries: Seq<StoredView>,
    key: Seq<u8>,
    approve: bool,
    voter: Identity,
)
    requires
        entries_wf(entries),
    ensures
        entries_wf(vote_step(entries, key, approve, voter).0),
{
    let k = trimmed(key);
    if derive_norm(k) is Some {
        let d = derive_norm(k)->Some_0;
        if find_ix(entries, d.addr) is Some {
            let i = find_ix(entries, d.addr)->Some_0;
            lemma_find_from_props(entries, d.addr, 0);
            let r = entries[i].rec;
            if r.status == Status::Unverified && voter != r.submitter && !has_voted(r, voter) {
                crate::den::lemma_cast_vote_wf(r, approve, voter);
                let r2 = cast_vote(r, approve, voter);
                let e2 = StoredView { addr: entries[i].addr, nonce: entries[i].nonce, rec: r2 };
                crate::den::lemma_entries_wf_update(entries, i, e2);
            }
        }
    }
}

/// Exactly one record per content key: in a well formed store no two
/// slots hold the same content key.
pub proof fn lemma_one_record_per_key(entries: Seq<StoredView>, i: int, j: int)
    requires
        entries_wf(entries),
        0 <= i < j < entries.len(),
    ensures
        entries[i].rec.content_key != entries[j].rec.content_key,
{
    if entries[i].rec.content_key == entries[j].rec.content_key {
        assert(entries[i].addr == entries[j].addr);
    }
}


} // verus!
