//! The two-thirds approval rule.
use vstd::prelude::*;

verus! {

/// The approvals needed among `active` eligible validators: more than two thirds.
pub open spec fn quorum_of(active: nat) -> nat {
    if active == 0 {
        0
    } else {
        active * 2 / 3 + 1
    }
}

/// The number of approvals needed among `active_validators` eligible validators.
pub fn required_quorum(active_validators: usize) -> (required: usize)
    requires
        active_validators * 2 <= usize::MAX,
    ensures
        required == quorum_of(active_validators as nat),
{
    if active_validators == 0 {
        0
    } else {
        (active_validators * 2) / 3 + 1
    }
}

/// For any positive number of validators, a quorum is more than two thirds of
/// them, is reachable, and any two quorums share a validator (two quorums
/// together exceed the whole).
pub proof fn lemma_quorum_is_two_thirds(active: nat)
    requires
        active > 0,
    ensures
        3 * quorum_of(active) > 2 * active,
        quorum_of(active) <= active,
        2 * quorum_of(active) > active,
{
    let q = quorum_of(active);
    assert(q == active * 2 / 3 + 1);
    assert(3 * (active * 2 / 3) <= active * 2) by (nonlinear_arith);
    assert(3 * (active * 2 / 3) > active * 2 - 3) by (nonlinear_arith);
}

} // verus!
