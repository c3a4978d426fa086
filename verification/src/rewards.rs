use crate::types::{Identity, RecordView, Status};
use vstd::prelude::*;

verus! {

// ---------------------------------------------------------------------------
// Reward accrual. Rewards are held in fixed-point minor units, ten to one
// whole unit, so that accumulation across many records never drifts.
// Forwarding the amounts to a payout collaborator is the caller's job.
// ---------------------------------------------------------------------------

/// Minor units (tenths of a unit) paid to the submitter of a record that
/// finalizes as verified: one whole unit.
pub const SUBMITTER_REWARD_TENTHS: u64 = 10;

/// Minor units paid to each verifier of a record that finalizes as
/// verified: three tenths of a unit.
pub const VERIFIER_REWARD_TENTHS: u64 = 3;

/// Minor units paid to each rejecter of a record that finalizes as
/// rejected: half a unit. The submitter receives nothing.
pub const REJECTER_REWARD_TENTHS: u64 = 5;

/// Reward deltas owed for a record in the given state: on `Verified` one
/// unit to the submitter and three tenths to each verifier, on `Rejected`
/// half a unit to each rejecter, otherwise nothing.
pub open spec fn accrue_spec(
    status: Status,
    submitter: Identity,
    verifiers: Seq<Identity>,
    rejecters: Seq<Identity>,
) -> Seq<(Identity, u64)> {
    if status == Status::Verified {
        seq![(submitter, SUBMITTER_REWARD_TENTHS)] + verifiers.map_values(
            |v: Identity| (v, VERIFIER_REWARD_TENTHS),
        )
    } else if status == Status::Rejected {
        rejecters.map_values(|v: Identity| (v, REJECTER_REWARD_TENTHS))
    } else {
        Seq::empty()
    }
}

/// Reward deltas owed for a record, from its own fields.
pub open spec fn payouts_for(r: RecordView) -> Seq<(Identity, u64)> {
    accrue_spec(r.status, r.submitter, r.verifiers, r.rejecters)
}

/// Computes the reward deltas owed for a record in the given state, as
/// `(identity, minor units)` pairs.
pub fn accrue(
    status: Status,
    submitter: Identity,
    verifiers: &Vec<Identity>,
    rejecters: &Vec<Identity>,
) -> (r: Vec<(Identity, u64)>)
    ensures
        r@ == accrue_spec(status, submitter, verifiers@, rejecters@),
{
    let mut r: Vec<(Identity, u64)> = Vec::new();
    match status {
        Status::Verified => {
            r.push((submitter, SUBMITTER_REWARD_TENTHS));
            let mut i: usize = 0;
            while i < verifiers.len()
                invariant
                    i <= verifiers.len(),
                    r@ =~= seq![(submitter, SUBMITTER_REWARD_TENTHS)] + verifiers@.take(
                        i as int,
                    ).map_values(|v: Identity| (v, VERIFIER_REWARD_TENTHS)),
                decreases verifiers.len() - i,
            {
                r.push((verifiers[i], VERIFIER_REWARD_TENTHS));
                proof {
                    let f = |v: Identity| (v, VERIFIER_REWARD_TENTHS);
                    assert(verifiers@.take(i + 1).map_values(f) =~= verifiers@.take(
                        i as int,
                    ).map_values(f).push(f(verifiers@[i as int])));
                }
                i = i + 1;
            }
            proof {
                assert(verifiers@.take(verifiers@.len() as int) =~= verifiers@);
            }
        },
        Status::Rejected => {
            let mut i: usize = 0;
            while i < rejecters.len()
                invariant
                    i <= rejecters.len(),
                    r@ =~= rejecters@.take(i as int).map_values(
                        |v: Identity| (v, REJECTER_REWARD_TENTHS),
                    ),
                decreases rejecters.len() - i,
            {
                r.push((rejecters[i], REJECTER_REWARD_TENTHS));
                proof {
                    let f = |v: Identity| (v, REJECTER_REWARD_TENTHS);
                    assert(rejecters@.take(i + 1).map_values(f) =~= rejecters@.take(
                        i as int,
                    ).map_values(f).push(f(rejecters@[i as int])));
                }
                i = i + 1;
            }
            proof {
                assert(rejecters@.take(rejecters@.len() as int) =~= rejecters@);
            }
        },
        Status::Unverified => {
        },
    }
    r
}

} // verus!
