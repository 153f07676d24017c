//! Reports of whole-chain validation.
use vstd::prelude::*;

verus! {

/// One problem found in a chain, at a block.
#[derive(Clone, Debug, PartialEq, Eq)]
pub struct ValidationIssue {
    pub block_index: u64,
    pub reason: String,
}

/// The result of checking a whole chain.
#[derive(Debug, PartialEq, Eq)]
pub struct ChainValidation {
    pub valid: bool,
    pub checked_blocks: usize,
    pub issues: Vec<ValidationIssue>,
}

impl ChainValidation {
    /// A report of a chain without problems.
    pub fn valid(checked_blocks: usize) -> (r: Self)
        ensures
            r.valid,
            r.checked_blocks == checked_blocks,
            r.issues@.len() == 0,
    {
        ChainValidation { valid: true, checked_blocks, issues: Vec::new() }
    }

    /// A report of a chain with the given problems.
    pub fn invalid(checked_blocks: usize, issues: Vec<ValidationIssue>) -> (r: Self)
        ensures
            !r.valid,
            r.checked_blocks == checked_blocks,
            r.issues@ == issues@,
    {
        ChainValidation { valid: false, checked_blocks, issues }
    }
}

} // verus!
