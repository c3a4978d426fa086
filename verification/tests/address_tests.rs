use den::types::{Identity, Payload, Record, Status};

fn key(s: &str) -> Vec<u8> {
    s.as_bytes().to_vec()
}

#[test]
fn derivation_is_deterministic() {
    let first = den::address::derive(&key("INV-1001")).unwrap();
    let second = den::address::derive(&key("INV-1001")).unwrap();
    assert_eq!(first.addr, second.addr);
    assert_eq!(first.nonce, second.nonce);
}

#[test]
fn derivation_normalizes_before_deriving() {
    let plain = den::address::derive(&key("INV-1001")).unwrap();
    let padded = den::address::derive(&key("  INV-1001\t\r\n")).unwrap();
    assert_eq!(plain.addr, padded.addr);
    assert_eq!(plain.nonce, padded.nonce);
}

#[test]
fn derivation_accepts_the_empty_key() {
    let a = den::address::derive(&Vec::new()).unwrap();
    let b = den::address::derive(&key("   ")).unwrap();
    assert_eq!(a.addr, b.addr);
    assert_eq!(a.addr.len(), 32);
}

#[test]
fn distinct_keys_get_distinct_addresses() {
    let a = den::address::derive(&key("INV-1001")).unwrap();
    let b = den::address::derive(&key("INV-1002")).unwrap();
    assert_ne!(a.addr, b.addr);
}

#[test]
fn derived_address_is_no_echo_of_the_key() {
    let long_key = key("INV-1001-padded-well-past-thirty-two-bytes-of-length");
    let d = den::address::derive(&long_key).unwrap();
    assert_eq!(d.addr.len(), 32);
    assert_ne!(d.addr, long_key);
}

#[test]
fn receipt_transaction_id_is_the_sha256_of_the_normalized_key() {
    let submitter = Identity { key: 1 };
    let mut den = den::den::Den::new();
    den.set_balance(submitter, 1_000_000);
    let receipt = den
        .submit_record(
            &key(" INV-1001 "),
            Payload {
                amount: 500,
                quantity: 2,
                timestamp: 0,
                classification: Vec::new(),
                proof_ref: Vec::new(),
            },
            submitter,
        )
        .unwrap();
    let expected: Vec<u8> = vec![
        46, 254, 8, 158, 200, 247, 30, 123, 31, 50, 223, 105, 56, 155, 237, 146, 133, 95, 207,
        136, 255, 53, 219, 182, 184, 11, 208, 1, 78, 55, 153, 73,
    ];
    assert_eq!(receipt.tx_id, expected);
    assert_ne!(receipt.tx_id, receipt.addr);
}

#[test]
fn required_size_counts_prefixes_fields_and_full_vote_sets() {
    let rec = Record {
        content_key: key("INV-1001"),
        payload: Payload {
            amount: 500,
            quantity: 2,
            timestamp: 0,
            classification: key("HSN1"),
            proof_ref: key("img://"),
        },
        submitter: Identity { key: 1 },
        status: Status::Unverified,
        verifiers: vec![],
        rejecters: vec![],
    };
    // fixed 225 bytes, plus 8 + 4 + 6 variable bytes
    assert_eq!(rec.required_size(), 243);
}
