//! Proof-of-authority agreement on the block at one height: a proposal from an
//! authorized proposer, approvals from the validators eligible when it was
//! registered, and a two-thirds quorum of them.
use vstd::prelude::*;

use crate::block::{Block, BlockView, block_check};
use crate::crypto::{ValidatorIdentity, ed25519_signature_of};
use crate::error::{ErrorSpec, MiniChainError, outcome};
use crate::quorum::{lemma_quorum_is_two_thirds, quorum_of, required_quorum};
use crate::text::{same_text, texts, utf8};
use crate::transaction::copy_bytes;
use crate::validator::{Permission, ValidatorRegistry, ValidatorView, approver_set, verify_check};

verus! {

/// A block proposed by a validator, with the proposer's signature of its hash.
#[derive(Debug)]
pub struct Proposal {
    pub block: Block,
    pub proposer_id: String,
    pub proposer_signature: Vec<u8>,
}

/// The value of a proposal.
pub struct ProposalView {
    pub block: BlockView,
    pub proposer_id: Seq<char>,
    pub proposer_signature: Seq<u8>,
}

impl View for Proposal {
    type V = ProposalView;

    open spec fn view(&self) -> ProposalView {
        ProposalView {
            block: self.block@,
            proposer_id: self.proposer_id@,
            proposer_signature: self.proposer_signature@,
        }
    }
}

impl Clone for Proposal {
    fn clone(&self) -> (r: Self)
        ensures
            r@ == self@,
    {
        Proposal {
            block: self.block.clone(),
            proposer_id: self.proposer_id.clone(),
            proposer_signature: copy_bytes(self.proposer_signature.as_slice()),
        }
    }
}

impl Proposal {
    /// Proposes `block`, signing its hash with `identity`.
    pub fn new(block: Block, identity: &ValidatorIdentity) -> (p: Self)
        ensures
            p@.block == block@,
            p@.proposer_id == identity.id(),
            p@.proposer_signature == ed25519_signature_of(identity.secret_key(), utf8(block@.hash)),
    {
        let signature = identity.sign(block.hash.as_str().as_bytes());
        Proposal {
            block,
            proposer_id: identity.validator_id().to_owned(),
            proposer_signature: copy_bytes(&signature),
        }
    }
}

/// A validator's approval of a proposal, by the proposal's hash.
#[derive(Debug, PartialEq, Eq)]
pub struct Approval {
    pub proposal_hash: String,
    pub validator_id: String,
    pub signature: Vec<u8>,
}

/// The value of an approval.
pub struct ApprovalView {
    pub proposal_hash: Seq<char>,
    pub validator_id: Seq<char>,
    pub signature: Seq<u8>,
}

impl View for Approval {
    type V = ApprovalView;

    open spec fn view(&self) -> ApprovalView {
        ApprovalView {
            proposal_hash: self.proposal_hash@,
            validator_id: self.validator_id@,
            signature: self.signature@,
        }
    }
}

impl Clone for Approval {
    fn clone(&self) -> (r: Self)
        ensures
            r@ == self@,
    {
        Approval {
            proposal_hash: self.proposal_hash.clone(),
            validator_id: self.validator_id.clone(),
            signature: copy_bytes(self.signature.as_slice()),
        }
    }
}

impl Approval {
    /// Approves the proposal with `proposal_hash`, signing the hash with `identity`.
    pub fn sign(proposal_hash: &str, identity: &ValidatorIdentity) -> (a: Self)
        ensures
            a@.proposal_hash == proposal_hash@,
            a@.validator_id == identity.id(),
            a@.signature == ed25519_signature_of(identity.secret_key(), utf8(proposal_hash@)),
    {
        let signature = identity.sign(proposal_hash.as_bytes());
        Approval {
            signature: copy_bytes(&signature),
            proposal_hash: proposal_hash.to_owned(),
            validator_id: identity.validator_id().to_owned(),
        }
    }
}

/// A registered proposal and the approvals it has gathered.
pub struct RoundView {
    pub height: u64,
    pub hash: Seq<char>,
    pub approvals: Set<Seq<char>>,
    pub eligible: Set<Seq<char>>,
    pub required: nat,
}

/// The outcome of registering proposal `p` with a consensus that expects a
/// block at `height` after `previous_hash` and holds `round`.
pub open spec fn register_check(
    height: u64,
    previous_hash: Seq<char>,
    round: Option<RoundView>,
    p: ProposalView,
    validators: Map<Seq<char>, ValidatorView>,
) -> Result<(), ErrorSpec> {
    let header = p.block.header;
    let signed = verify_check(
        validators,
        p.proposer_id,
        Permission::ProposeBlocks,
        utf8(p.block.hash),
        p.proposer_signature,
    );
    if header.index != height {
        Err(ErrorSpec::InvalidBlockIndex { index: header.index, expected: height, actual: header.index })
    } else if header.previous_hash != previous_hash {
        Err(ErrorSpec::InvalidPreviousHash { index: header.index })
    } else if header.validator_id != p.proposer_id {
        Err(
            ErrorSpec::BlockValidatorMismatch {
                block_validator: header.validator_id,
                proposer: p.proposer_id,
            },
        )
    } else if signed is Err {
        signed
    } else if block_check(p.block) is Err {
        block_check(p.block)
    } else if approver_set(validators).len() == 0 {
        Err(ErrorSpec::NoActiveApprovers)
    } else {
        match round {
            Some(r) => if r.height == header.index {
                if r.hash != p.block.hash {
                    Err(ErrorSpec::ConflictingProposal { height: header.index })
                } else {
                    Err(ErrorSpec::DuplicateProposal { hash: p.block.hash })
                }
            } else {
                Ok(())
            },
            None => Ok(()),
        }
    }
}

/// The round that registering proposal `p` opens.
pub open spec fn opened_round(p: ProposalView, validators: Map<Seq<char>, ValidatorView>) -> RoundView {
    RoundView {
        height: p.block.header.index,
        hash: p.block.hash,
        approvals: Set::empty(),
        eligible: approver_set(validators),
        required: quorum_of(approver_set(validators).len()),
    }
}

/// The outcome of recording approval `a` in `round`.
pub open spec fn approve_check(
    round: Option<RoundView>,
    a: ApprovalView,
    validators: Map<Seq<char>, ValidatorView>,
) -> Result<(), ErrorSpec> {
    match round {
        None => Err(ErrorSpec::ApprovalForWrongProposal),
        Some(r) => {
            let signed = verify_check(
                validators,
                a.validator_id,
                Permission::ApproveBlocks,
                utf8(a.proposal_hash),
                a.signature,
            );
            if r.hash != a.proposal_hash {
                Err(ErrorSpec::ApprovalForWrongProposal)
            } else if !validators.contains_key(a.validator_id) {
                Err(ErrorSpec::UnknownValidator { id: a.validator_id })
            } else if !r.eligible.contains(a.validator_id) {
                Err(ErrorSpec::ValidatorNotEligibleForProposal { id: a.validator_id })
            } else if signed is Err {
                signed
            } else if r.approvals.contains(a.validator_id) {
                Err(ErrorSpec::DuplicateApproval { id: a.validator_id })
            } else {
                Ok(())
            }
        },
    }
}

/// The outcome of asking whether the proposal with `hash` has its quorum.
pub open spec fn quorum_check(round: Option<RoundView>, hash: Seq<char>) -> Result<(), ErrorSpec> {
    match round {
        Some(r) => if r.hash != hash {
            Err(ErrorSpec::ApprovalForWrongProposal)
        } else if r.approvals.len() < r.required {
            Err(
                ErrorSpec::InsufficientQuorum {
                    required: r.required as usize,
                    received: r.approvals.len() as usize,
                },
            )
        } else {
            Ok(())
        },
        None => Err(ErrorSpec::ApprovalForWrongProposal),
    }
}

#[derive(Debug)]
struct Round {
    height: u64,
    hash: String,
    approvals: Vec<String>,
    eligible: Vec<String>,
    required: usize,
}

impl Round {
    spec fn view(&self) -> RoundView {
        RoundView {
            height: self.height,
            hash: self.hash@,
            approvals: texts(self.approvals@).to_set(),
            eligible: texts(self.eligible@).to_set(),
            required: self.required as nat,
        }
    }

    spec fn valid(&self) -> bool {
        &&& texts(self.approvals@).no_duplicates()
        &&& texts(self.eligible@).no_duplicates()
        &&& self.view().approvals.subset_of(self.view().eligible)
        &&& self.view().eligible.len() > 0
        &&& self.required == quorum_of(self.view().eligible.len())
    }
}

fn contains_text(items: &Vec<String>, s: &str) -> (r: bool)
    ensures
        r == texts(items@).contains(s@),
{
    let mut i: usize = 0;
    while i < items.len()
        invariant
            i <= items@.len(),
            forall|k: int| 0 <= k < i ==> items@[k]@ != s@,
        decreases items@.len() - i,
    {
        if same_text(items[i].as_str(), s) {
            assert(texts(items@)[i as int] == s@);
            return true;
        }
        i = i + 1;
    }
    proof {
        if texts(items@).contains(s@) {
            let k = choose|k: int| 0 <= k < texts(items@).len() && texts(items@)[k] == s@;
            assert(items@[k]@ == s@);
        }
    }
    false
}

/// Agreement on the block at one height: the height and parent it expects,
/// and the proposal registered for that height, if any, with its approvals.
#[derive(Debug)]
pub struct AuthorityConsensus {
    expected_height: u64,
    expected_previous_hash: String,
    round: Option<Round>,
}

impl AuthorityConsensus {
    /// The height of the block this consensus agrees on.
    pub closed spec fn expected_height(&self) -> u64 {
        self.expected_height
    }

    /// The hash the agreed block must link to.
    pub closed spec fn expected_previous_hash(&self) -> Seq<char> {
        self.expected_previous_hash@
    }

    /// The registered proposal and its approvals, if a proposal was registered.
    pub closed spec fn round(&self) -> Option<RoundView> {
        match self.round {
            Some(r) => Some(r.view()),
            None => None,
        }
    }

    /// Well-formedness: approvals are distinct and eligible, and the quorum is
    /// two thirds of the eligible validators.
    pub closed spec fn valid(&self) -> bool {
        match self.round {
            Some(r) => r.valid(),
            None => true,
        }
    }

    /// A consensus for the block at `expected_height` after `expected_previous_hash`.
    pub fn new(expected_height: u64, expected_previous_hash: &str) -> (c: Self)
        ensures
            c.valid(),
            c.expected_height() == expected_height,
            c.expected_previous_hash() == expected_previous_hash@,
            c.round() is None,
    {
        AuthorityConsensus {
            expected_height,
            expected_previous_hash: expected_previous_hash.to_owned(),
            round: None,
        }
    }

    /// Registers a proposal: it must be for the expected height and parent,
    /// come from its block's validator with a valid signature and permission,
    /// hold a valid block, and be the first for its height. The validators
    /// eligible to approve it, and the quorum, are fixed now.
    pub fn register_proposal(&mut self, proposal: &Proposal, registry: &ValidatorRegistry) -> (r:
        Result<(), MiniChainError>)
        requires
            old(self).valid(),
            registry.valid(),
            registry.approver_ids().len() * 2 <= usize::MAX,
        ensures
            final(self).valid(),
            final(self).expected_height() == old(self).expected_height(),
            final(self).expected_previous_hash() == old(self).expected_previous_hash(),
            outcome(r) == register_check(
                old(self).expected_height(),
                old(self).expected_previous_hash(),
                old(self).round(),
                proposal@,
                registry.validators(),
            ),
            r is Ok ==> final(self).round() == Some(opened_round(proposal@, registry.validators())),
            r is Err ==> final(self).round() == old(self).round(),
    {
        let header = &proposal.block.header;
        if header.index != self.expected_height {
            return Err(
                MiniChainError::InvalidBlockIndex {
                    index: header.index,
                    expected: self.expected_height,
                    actual: header.index,
                },
            );
        }
        if !same_text(header.previous_hash.as_str(), self.expected_previous_hash.as_str()) {
            return Err(MiniChainError::InvalidPreviousHash { index: header.index });
        }
        if !same_text(header.validator_id.as_str(), proposal.proposer_id.as_str()) {
            return Err(
                MiniChainError::BlockValidatorMismatch {
                    block_validator: header.validator_id.clone(),
                    proposer: proposal.proposer_id.clone(),
                },
            );
        }
        registry.verify(
            proposal.proposer_id.as_str(),
            Permission::ProposeBlocks,
            proposal.block.hash.as_str().as_bytes(),
            proposal.proposer_signature.as_slice(),
        )?;
        proposal.block.validate_contents()?;
        let eligible = registry.active_approver_ids();
        proof {
            texts(eligible@).unique_seq_to_set();
            assert(texts(eligible@).len() == eligible@.len());
        }
        if eligible.len() == 0 {
            return Err(MiniChainError::NoActiveApprovers);
        }
        let required = required_quorum(eligible.len());
        let height = header.index;
        match &self.round {
            Some(round) => {
                if round.height == height {
                    if !same_text(round.hash.as_str(), proposal.block.hash.as_str()) {
                        return Err(MiniChainError::ConflictingProposal { height });
                    }
                    return Err(MiniChainError::DuplicateProposal { hash: proposal.block.hash.clone() });
                }
            },
            None => {},
        }
        let approvals: Vec<String> = Vec::new();
        proof {
            assert(texts(approvals@).to_set() =~= Set::<Seq<char>>::empty());
            assert(texts(approvals@) =~= Seq::<Seq<char>>::empty());
        }
        self.round = Some(
            Round { height, hash: proposal.block.hash.clone(), approvals, eligible, required },
        );
        Ok(())
    }

    /// Records an approval of the registered proposal: the approver must be a
    /// known validator that was eligible when the proposal was registered,
    /// hold the approval permission, have signed the proposal's hash, and not
    /// have approved it before.
    pub fn approve(&mut self, approval: Approval, registry: &ValidatorRegistry) -> (r: Result<
        (),
        MiniChainError,
    >)
        requires
            old(self).valid(),
            registry.valid(),
        ensures
            final(self).valid(),
            final(self).expected_height() == old(self).expected_height(),
            final(self).expected_previous_hash() == old(self).expected_previous_hash(),
            outcome(r) == approve_check(old(self).round(), approval@, registry.validators()),
            r is Ok ==> final(self).round() == Some(
                (RoundView {
                    approvals: old(self).round().unwrap().approvals.insert(approval@.validator_id),
                    ..old(self).round().unwrap()
                }),
            ),
            r is Err ==> final(self).round() == old(self).round(),
    {
        let ghost before = self.round();
        let mut round = match self.round.take() {
            Some(round) => round,
            None => {
                return Err(MiniChainError::ApprovalForWrongProposal);
            },
        };
        if !same_text(round.hash.as_str(), approval.proposal_hash.as_str()) {
            self.round = Some(round);
            return Err(MiniChainError::ApprovalForWrongProposal);
        }
        if registry.get(approval.validator_id.as_str()).is_none() {
            self.round = Some(round);
            return Err(MiniChainError::UnknownValidator { id: approval.validator_id });
        }
        if !contains_text(&round.eligible, approval.validator_id.as_str()) {
            self.round = Some(round);
            return Err(MiniChainError::ValidatorNotEligibleForProposal { id: approval.validator_id });
        }
        match registry.verify(
            approval.validator_id.as_str(),
            Permission::ApproveBlocks,
            approval.proposal_hash.as_str().as_bytes(),
            approval.signature.as_slice(),
        ) {
            Ok(()) => {},
            Err(e) => {
                self.round = Some(round);
                return Err(e);
            },
        }
        if contains_text(&round.approvals, approval.validator_id.as_str()) {
            self.round = Some(round);
            return Err(MiniChainError::DuplicateApproval { id: approval.validator_id });
        }
        let ghost old_approvals = round.approvals@;
        round.approvals.push(approval.validator_id);
        proof {
            let id = approval@.validator_id;
            assert(texts(round.approvals@) =~= texts(old_approvals).push(id));
            texts(old_approvals).lemma_push_to_set_commute(id);
            let s = texts(round.approvals@);
            assert forall|a: int, b: int| 0 <= a < s.len() && 0 <= b < s.len() && a != b implies s[a]
                != s[b] by {
                if a < old_approvals.len() && b < old_approvals.len() {
                    assert(s[a] == texts(old_approvals)[a] && s[b] == texts(old_approvals)[b]);
                } else if a < old_approvals.len() {
                    assert(s[a] == texts(old_approvals)[a]);
                    assert(texts(old_approvals).contains(s[a]));
                } else if b < old_approvals.len() {
                    assert(s[b] == texts(old_approvals)[b]);
                    assert(texts(old_approvals).contains(s[b]));
                }
            }
        }
        self.round = Some(round);
        Ok(())
    }

    /// Succeeds when the registered proposal with `proposal_hash` has gathered
    /// the approvals its quorum requires.
    pub fn ensure_quorum(&self, proposal_hash: &str, _registry: &ValidatorRegistry) -> (r: Result<
        (),
        MiniChainError,
    >)
        requires
            self.valid(),
        ensures
            outcome(r) == quorum_check(self.round(), proposal_hash@),
    {
        match &self.round {
            Some(round) => {
                if !same_text(round.hash.as_str(), proposal_hash) {
                    return Err(MiniChainError::ApprovalForWrongProposal);
                }
                proof {
                    texts(round.approvals@).unique_seq_to_set();
                }
                let received = round.approvals.len();
                if received < round.required {
                    return Err(MiniChainError::InsufficientQuorum { required: round.required, received });
                }
                Ok(())
            },
            None => Err(MiniChainError::ApprovalForWrongProposal),
        }
    }
}

/// Whatever has been registered and approved, approvals come only from
/// validators that were eligible for the proposal, there are no more of them
/// than eligible validators, and the quorum is the two-thirds rule applied to
/// the eligible validators.
pub proof fn lemma_approvals_are_eligible(c: &AuthorityConsensus)
    requires
        c.valid(),
    ensures
        c.round() matches Some(r) ==> {
            &&& r.approvals.subset_of(r.eligible)
            &&& r.approvals.finite()
            &&& r.eligible.finite()
            &&& r.approvals.len() <= r.eligible.len()
            &&& r.eligible.len() > 0
            &&& r.required == quorum_of(r.eligible.len())
        },
{
    match c.round {
        Some(round) => {
            let r = round.view();
            vstd::set_lib::lemma_len_subset(r.approvals, r.eligible);
        },
        None => {},
    }
}

/// A proposal that has reached its quorum is approved by more than two thirds
/// of the validators that were eligible for it.
pub proof fn lemma_quorum_is_supermajority(c: &AuthorityConsensus, hash: Seq<char>)
    requires
        c.valid(),
        quorum_check(c.round(), hash) is Ok,
    ensures
        c.round() matches Some(r) && r.hash == hash && 3 * r.approvals.len() > 2 * r.eligible.len(),
{
    lemma_approvals_are_eligible(c);
    let r = c.round().unwrap();
    lemma_quorum_is_two_thirds(r.eligible.len());
}

/// Once every validator eligible for the registered proposal has approved
/// it, the proposal has its quorum.
pub proof fn lemma_full_approval_reaches_quorum(c: &AuthorityConsensus)
    requires
        c.valid(),
        c.round() matches Some(r) && r.approvals == r.eligible,
    ensures
        quorum_check(c.round(), c.round().unwrap().hash) is Ok,
{
    lemma_approvals_are_eligible(c);
    let r = c.round().unwrap();
    lemma_quorum_is_two_thirds(r.eligible.len());
}

/// At most one proposal is registered per height: once a proposal has been
/// registered, another for the same height that passes every other check is
/// refused as conflicting, or as a duplicate if it holds the same block (and
/// a refused registration leaves the registered round as it was).
pub proof fn lemma_one_proposal_per_height(
    height: u64,
    previous_hash: Seq<char>,
    earlier: Option<RoundView>,
    first: ProposalView,
    first_validators: Map<Seq<char>, ValidatorView>,
    second: ProposalView,
    validators: Map<Seq<char>, ValidatorView>,
)
    requires
        register_check(height, previous_hash, earlier, first, first_validators) is Ok,
        second.block.header.index == height,
        second.block.header.previous_hash == previous_hash,
        second.block.header.validator_id == second.proposer_id,
        verify_check(
            validators,
            second.proposer_id,
            Permission::ProposeBlocks,
            utf8(second.block.hash),
            second.proposer_signature,
        ) is Ok,
        block_check(second.block) is Ok,
        approver_set(validators).len() > 0,
    ensures
        register_check(
            height,
            previous_hash,
            Some(opened_round(first, first_validators)),
            second,
            validators,
        ) == if second.block.hash != first.block.hash {
            Err::<(), ErrorSpec>(ErrorSpec::ConflictingProposal { height })
        } else {
            Err::<(), ErrorSpec>(ErrorSpec::DuplicateProposal { hash: first.block.hash })
        },
{
}

} // verus!
