use den::rewards::{
    accrue, REJECTER_REWARD_TENTHS, SUBMITTER_REWARD_TENTHS, VERIFIER_REWARD_TENTHS,
};
use den::types::{Identity, Status};

fn ident(n: u64) -> Identity {
    Identity { key: n }
}

#[test]
fn verified_path_pays_submitter_and_each_verifier() {
    let s = ident(1);
    let vs = vec![ident(2), ident(3), ident(4)];
    let out = accrue(Status::Verified, s, &vs, &Vec::new());
    assert_eq!(
        out,
        vec![(s, 10), (ident(2), 3), (ident(3), 3), (ident(4), 3)]
    );
}

#[test]
fn rejected_path_pays_each_rejecter_and_not_the_submitter() {
    let s = ident(1);
    let rs = vec![ident(5), ident(6)];
    let out = accrue(Status::Rejected, s, &Vec::new(), &rs);
    assert_eq!(out, vec![(ident(5), 5), (ident(6), 5)]);
    assert!(out.iter().all(|(who, _)| *who != s));
}

#[test]
fn unverified_record_accrues_nothing() {
    let out = accrue(
        Status::Unverified,
        ident(1),
        &vec![ident(2)],
        &vec![ident(3)],
    );
    assert!(out.is_empty());
}

#[test]
fn reward_constants_are_fixed_point_tenths() {
    assert_eq!(SUBMITTER_REWARD_TENTHS, 10);
    assert_eq!(VERIFIER_REWARD_TENTHS, 3);
    assert_eq!(REJECTER_REWARD_TENTHS, 5);
}
