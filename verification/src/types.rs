use vstd::prelude::*;

verus! {

/// Number of distinct approve votes that finalizes a record as `Verified`.
pub const VERIFY_THRESHOLD: usize = 3;

/// Number of distinct reject votes that finalizes a record as `Rejected`.
pub const REJECT_THRESHOLD: usize = 2;

/// Bytes a stored identity occupies in a serialized slot.
pub const IDENTITY_BYTES: u64 = 32;

/// Bytes of the length prefix written before each variable-length field.
pub const LEN_PREFIX_BYTES: u64 = 4;

/// An opaque token standing for a participant's on-chain identity.
/// The record machine only ever compares identities for equality.
#[derive(PartialEq, Eq, Structural, Clone, Copy, Debug)]
pub struct Identity {
    pub key: u64,
}

/// Lifecycle of a record. `Verified` and `Rejected` are terminal.
#[derive(PartialEq, Eq, Structural, Clone, Copy, Debug)]
pub enum Status {
    Unverified,
    Verified,
    Rejected,
}

/// Every way a submission or a vote can be refused. Each failure leaves
/// the whole state unchanged.
#[derive(PartialEq, Eq, Structural, Clone, Copy, Debug)]
pub enum DenError {
    /// A record already occupies the address derived from the content key.
    DuplicateRecord,
    /// No record occupies the address derived from the content key.
    RecordNotFound,
    /// The record's status is terminal; no further votes are accepted.
    AlreadyProcessed,
    /// The voter is the record's submitter.
    SelfVote,
    /// The voter already cast a vote, on either side, on this record.
    DuplicateVote,
    /// The funding identity cannot cover the storage deposit.
    InsufficientFunds,
    /// A caller-supplied address differs from the derived one.
    AddressMismatch,
    /// Address derivation found no usable nonce for this key.
    DerivationFailed,
}

/// The economic content of a record, as handed in by the submitter.
pub struct Payload {
    pub amount: u64,
    pub quantity: u32,
    pub timestamp: i64,
    pub classification: Vec<u8>,
    pub proof_ref: Vec<u8>,
}

/// Mathematical image of a `Payload`.
#[verifier::ext_equal]
pub ghost struct PayloadView {
    pub amount: u64,
    pub quantity: u32,
    pub timestamp: i64,
    pub classification: Seq<u8>,
    pub proof_ref: Seq<u8>,
}

impl View for Payload {
    type V = PayloadView;

    open spec fn view(&self) -> PayloadView {
        PayloadView {
            amount: self.amount,
            quantity: self.quantity,
            timestamp: self.timestamp,
            classification: self.classification@,
            proof_ref: self.proof_ref@,
        }
    }
}

/// One attested record: content, submitter, status and the two vote sets.
pub struct Record {
    pub content_key: Vec<u8>,
    pub payload: Payload,
    pub submitter: Identity,
    pub status: Status,
    pub verifiers: Vec<Identity>,
    pub rejecters: Vec<Identity>,
}

/// Mathematical image of a `Record`.
#[verifier::ext_equal]
pub ghost struct RecordView {
    pub content_key: Seq<u8>,
    pub payload: PayloadView,
    pub submitter: Identity,
    pub status: Status,
    pub verifiers: Seq<Identity>,
    pub rejecters: Seq<Identity>,
}

impl View for Record {
    type V = RecordView;

    open spec fn view(&self) -> RecordView {
        RecordView {
            content_key: self.content_key@,
            payload: self.payload@,
            submitter: self.submitter,
            status: self.status,
            verifiers: self.verifiers@,
            rejecters: self.rejecters@,
        }
    }
}

/// No identity occurs twice in the sequence.
pub open spec fn distinct_ids(s: Seq<Identity>) -> bool {
    forall|i: int, j: int| 0 <= i < j < s.len() ==> s[i] != s[j]
}

/// The identity already cast a vote, on either side, on this record.
pub open spec fn has_voted(r: RecordView, id: Identity) -> bool {
    r.verifiers.contains(id) || r.rejecters.contains(id)
}

/// Internal consistency of a record: vote sets are capped at their
/// thresholds, hold no duplicate and no self-vote, and the status is
/// terminal exactly when the matching set is full.
pub open spec fn wf_record(r: RecordView) -> bool {
    &&& r.verifiers.len() <= VERIFY_THRESHOLD
    &&& r.rejecters.len() <= REJECT_THRESHOLD
    &&& distinct_ids(r.verifiers)
    &&& distinct_ids(r.rejecters)
    &&& forall|id: Identity|
        !(#[trigger] r.verifiers.contains(id) && #[trigger] r.rejecters.contains(id))
    &&& !has_voted(r, r.submitter)
    &&& (r.status == Status::Verified <==> r.verifiers.len() == VERIFY_THRESHOLD)
    &&& (r.status == Status::Rejected <==> r.rejecters.len() == REJECT_THRESHOLD)
}

/// The record a submission creates: unverified, with empty vote sets.
pub open spec fn fresh_record(key: Seq<u8>, p: PayloadView, submitter: Identity) -> RecordView {
    RecordView {
        content_key: key,
        payload: p,
        submitter: submitter,
        status: Status::Unverified,
        verifiers: Seq::empty(),
        rejecters: Seq::empty(),
    }
}

/// Appends the vote to the chosen side and flips the status the instant
/// that side reaches its threshold.
pub open spec fn cast_vote(r: RecordView, approve: bool, voter: Identity) -> RecordView {
    if approve {
        let vs = r.verifiers.push(voter);
        RecordView {
            verifiers: vs,
            status: if vs.len() == VERIFY_THRESHOLD {
                Status::Verified
            } else {
                Status::Unverified
            },
            ..r
        }
    } else {
        let rs = r.rejecters.push(voter);
        RecordView {
            rejecters: rs,
            status: if rs.len() == REJECT_THRESHOLD {
                Status::Rejected
            } else {
                Status::Unverified
            },
            ..r
        }
    }
}

/// Bytes a slot must hold for the record: each variable-length field with
/// its length prefix, the fixed-width payload fields, the submitter, the
/// status byte, and both vote sets pre-sized at their full capacity so a
/// slot never grows during voting.
pub open spec fn required_size_of(r: RecordView) -> int {
    LEN_PREFIX_BYTES + r.content_key.len() + LEN_PREFIX_BYTES + r.payload.classification.len()
        + 8 + 4 + 8 + LEN_PREFIX_BYTES + r.payload.proof_ref.len() + IDENTITY_BYTES + 1
        + VERIFY_THRESHOLD * IDENTITY_BYTES + REJECT_THRESHOLD * IDENTITY_BYTES
}

/// Storage deposit owed for a slot of the record's size, in minor funding
/// units, one unit per byte.
pub open spec fn deposit_of(r: RecordView) -> int {
    required_size_of(r)
}

impl Record {
    /// Slot size the record needs, computed as `required_size_of` says.
    /// `u128` so that no key or payload length can overflow the sum.
    pub fn required_size(&self) -> (size: u128)
        ensures
            size == required_size_of(self@),
    {
        let var_bytes: u128 = self.content_key.len() as u128
            + self.payload.classification.len() as u128 + self.payload.proof_ref.len() as u128;
        let fixed_bytes: u128 = 3 * (LEN_PREFIX_BYTES as u128) + 8 + 4 + 8 + (IDENTITY_BYTES as u128)
            + 1 + (VERIFY_THRESHOLD as u128) * (IDENTITY_BYTES as u128)
            + (REJECT_THRESHOLD as u128) * (IDENTITY_BYTES as u128);
        fixed_bytes + var_bytes
    }
}

} // verus!
