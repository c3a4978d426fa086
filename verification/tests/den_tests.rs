use den::den::{confirm_address, Den};
use den::types::{DenError, Identity, Payload, Status};

fn ident(n: u64) -> Identity {
    Identity { key: n }
}

fn key(s: &str) -> Vec<u8> {
    s.as_bytes().to_vec()
}

fn payload(amount: u64, quantity: u32) -> Payload {
    Payload {
        amount,
        quantity,
        timestamp: 1_700_000_000,
        classification: b"HSN1".to_vec(),
        proof_ref: b"img://proof-1".to_vec(),
    }
}

fn funded_den(ids: &[Identity]) -> Den {
    let mut den = Den::new();
    for id in ids {
        den.set_balance(*id, 1_000_000);
    }
    den
}

#[test]
fn submit_then_verify_through_three_approvals() {
    let submitter = ident(1);
    let (v1, v2, v3) = (ident(2), ident(3), ident(4));
    let mut den = funded_den(&[submitter]);

    let receipt = den
        .submit_record(&key("INV-1001"), payload(500, 2), submitter)
        .expect("submission should succeed");
    assert_eq!(receipt.addr.len(), 32);

    let o1 = den.vote_on_record(&key("INV-1001"), true, v1).unwrap();
    assert_eq!(o1.status, Status::Unverified);
    assert!(o1.payouts.is_empty());

    let o2 = den.vote_on_record(&key("INV-1001"), true, v2).unwrap();
    assert_eq!(o2.status, Status::Unverified);
    assert!(o2.payouts.is_empty());

    let o3 = den.vote_on_record(&key("INV-1001"), true, v3).unwrap();
    assert_eq!(o3.status, Status::Verified);
    assert_eq!(
        o3.payouts,
        vec![(submitter, 10), (v1, 3), (v2, 3), (v3, 3)]
    );

    let rec = den.get_record(&key("INV-1001")).unwrap();
    assert_eq!(rec.status, Status::Verified);
    assert_eq!(rec.payload.amount, 500);
    assert_eq!(rec.payload.quantity, 2);
    assert_eq!(rec.verifiers, vec![v1, v2, v3]);
    assert!(rec.rejecters.is_empty());
}

#[test]
fn submit_then_reject_through_two_rejections() {
    let submitter = ident(1);
    let (r1, r2) = (ident(8), ident(9));
    let mut den = funded_den(&[submitter]);

    den.submit_record(&key("INV-1002"), payload(77, 1), submitter)
        .expect("submission should succeed");

    let o1 = den.vote_on_record(&key("INV-1002"), false, r1).unwrap();
    assert_eq!(o1.status, Status::Unverified);
    assert!(o1.payouts.is_empty());

    let o2 = den.vote_on_record(&key("INV-1002"), false, r2).unwrap();
    assert_eq!(o2.status, Status::Rejected);
    assert_eq!(o2.payouts, vec![(r1, 5), (r2, 5)]);

    let rec = den.get_record(&key("INV-1002")).unwrap();
    assert_eq!(rec.status, Status::Rejected);
    assert!(rec.verifiers.is_empty());
    assert_eq!(rec.rejecters, vec![r1, r2]);
}

#[test]
fn insufficient_funds_leaves_no_record() {
    let poor = ident(7);
    let mut den = Den::new();

    let r = den.submit_record(&key("INV-2001"), payload(1, 1), poor);
    assert_eq!(r.unwrap_err(), DenError::InsufficientFunds);

    assert!(den.get_record(&key("INV-2001")).is_none());
    let derived = den::address::derive(&key("INV-2001")).unwrap();
    assert!(!den.store.exists_at(&derived.addr));
}

#[test]
fn second_submission_is_duplicate_and_first_unchanged() {
    let a = ident(1);
    let b = ident(2);
    let mut den = funded_den(&[a, b]);

    den.submit_record(&key("INV-3001"), payload(123, 9), a)
        .expect("first submission should succeed");
    let second = den.submit_record(&key("INV-3001"), payload(999, 1), b);
    assert_eq!(second.unwrap_err(), DenError::DuplicateRecord);

    let rec = den.get_record(&key("INV-3001")).unwrap();
    assert_eq!(rec.payload.amount, 123);
    assert_eq!(rec.payload.quantity, 9);
    assert_eq!(rec.submitter, a);
}

#[test]
fn equivalent_keys_map_to_one_record() {
    let a = ident(1);
    let mut den = funded_den(&[a]);

    den.submit_record(&key("  INV-4001 \t"), payload(5, 5), a)
        .expect("submission should succeed");
    let dup = den.submit_record(&key("INV-4001"), payload(5, 5), a);
    assert_eq!(dup.unwrap_err(), DenError::DuplicateRecord);

    let rec = den.get_record(&key(" INV-4001\n")).unwrap();
    assert_eq!(rec.content_key, key("INV-4001"));
}

#[test]
fn self_vote_is_rejected_and_record_unchanged() {
    let submitter = ident(1);
    let mut den = funded_den(&[submitter]);
    den.submit_record(&key("INV-5001"), payload(1, 1), submitter)
        .unwrap();

    let r = den.vote_on_record(&key("INV-5001"), true, submitter);
    assert_eq!(r.unwrap_err(), DenError::SelfVote);

    let rec = den.get_record(&key("INV-5001")).unwrap();
    assert_eq!(rec.status, Status::Unverified);
    assert!(rec.verifiers.is_empty());
    assert!(rec.rejecters.is_empty());
}

#[test]
fn duplicate_vote_is_rejected_either_side() {
    let submitter = ident(1);
    let voter = ident(2);
    let mut den = funded_den(&[submitter]);
    den.submit_record(&key("INV-5002"), payload(1, 1), submitter)
        .unwrap();

    den.vote_on_record(&key("INV-5002"), true, voter).unwrap();
    let again = den.vote_on_record(&key("INV-5002"), true, voter);
    assert_eq!(again.unwrap_err(), DenError::DuplicateVote);
    let other_side = den.vote_on_record(&key("INV-5002"), false, voter);
    assert_eq!(other_side.unwrap_err(), DenError::DuplicateVote);

    let rec = den.get_record(&key("INV-5002")).unwrap();
    assert_eq!(rec.verifiers, vec![voter]);
    assert!(rec.rejecters.is_empty());
}

#[test]
fn finalized_record_accepts_no_further_votes() {
    let submitter = ident(1);
    let mut den = funded_den(&[submitter]);
    den.submit_record(&key("INV-5003"), payload(1, 1), submitter)
        .unwrap();

    den.vote_on_record(&key("INV-5003"), false, ident(2)).unwrap();
    den.vote_on_record(&key("INV-5003"), false, ident(3)).unwrap();

    let late = den.vote_on_record(&key("INV-5003"), true, ident(4));
    assert_eq!(late.unwrap_err(), DenError::AlreadyProcessed);

    let rec = den.get_record(&key("INV-5003")).unwrap();
    assert_eq!(rec.status, Status::Rejected);
    assert!(rec.verifiers.is_empty());
    assert_eq!(rec.rejecters.len(), 2);
}

#[test]
fn vote_on_missing_record_is_not_found() {
    let mut den = Den::new();
    let r = den.vote_on_record(&key("INV-NOWHERE"), true, ident(2));
    assert_eq!(r.unwrap_err(), DenError::RecordNotFound);
}

#[test]
fn two_approvals_leave_record_unverified() {
    let submitter = ident(1);
    let mut den = funded_den(&[submitter]);
    den.submit_record(&key("INV-5004"), payload(1, 1), submitter)
        .unwrap();

    den.vote_on_record(&key("INV-5004"), true, ident(2)).unwrap();
    let o = den.vote_on_record(&key("INV-5004"), true, ident(3)).unwrap();
    assert_eq!(o.status, Status::Unverified);
    assert_eq!(
        den.get_record(&key("INV-5004")).unwrap().status,
        Status::Unverified
    );
}

#[test]
fn submission_debits_exactly_the_deposit() {
    let submitter = ident(1);
    let mut den = Den::new();
    den.set_balance(submitter, 10_000);

    // variable bytes: key 8 + classification 4 + proof_ref 13 = 25
    den.submit_record(&key("INV-6001"), payload(1, 1), submitter)
        .unwrap();
    assert_eq!(den.balance_of(submitter), 10_000 - (225 + 25));
}

#[test]
fn deposit_misses_by_one_unit_and_fails() {
    let submitter = ident(1);
    let mut den = Den::new();
    den.set_balance(submitter, 225 + 25 - 1);
    let r = den.submit_record(&key("INV-6002"), payload(1, 1), submitter);
    assert_eq!(r.unwrap_err(), DenError::InsufficientFunds);

    den.set_balance(submitter, 225 + 25);
    den.submit_record(&key("INV-6002"), payload(1, 1), submitter)
        .unwrap();
    assert_eq!(den.balance_of(submitter), 0);
}

#[test]
fn list_records_by_owner_keeps_insertion_order() {
    let a = ident(1);
    let b = ident(2);
    let mut den = funded_den(&[a, b]);

    den.submit_record(&key("INV-7001"), payload(1, 1), a).unwrap();
    den.submit_record(&key("INV-7002"), payload(2, 1), b).unwrap();
    den.submit_record(&key("INV-7003"), payload(3, 1), a).unwrap();

    let mine = den.list_records_by_owner(a);
    assert_eq!(mine.len(), 2);
    assert_eq!(mine[0].content_key, key("INV-7001"));
    assert_eq!(mine[1].content_key, key("INV-7003"));

    let theirs = den.list_records_by_owner(b);
    assert_eq!(theirs.len(), 1);
    assert_eq!(theirs[0].content_key, key("INV-7002"));

    assert!(den.list_records_by_owner(ident(99)).is_empty());
}

#[test]
fn confirm_address_guards_spoofed_references() {
    let derived = den::address::derive(&key("INV-8001")).unwrap();
    assert!(confirm_address(&key("INV-8001"), &derived.addr).is_ok());

    let mut forged = derived.addr.clone();
    forged[0] = forged[0].wrapping_add(1);
    assert_eq!(
        confirm_address(&key("INV-8001"), &forged).unwrap_err(),
        DenError::AddressMismatch
    );
}

#[test]
fn empty_content_key_is_one_record_too() {
    let a = ident(1);
    let mut den = funded_den(&[a]);
    den.submit_record(&Vec::new(), payload(1, 1), a)
        .expect("the empty key is allowed");
    let dup = den.submit_record(&key("   "), payload(1, 1), a);
    assert_eq!(dup.unwrap_err(), DenError::DuplicateRecord);
    assert!(den.get_record(&key("\t")).is_some());
}
