//! The blockchain: blocks linked by hash from the genesis block onwards.
use vstd::prelude::*;

use crate::block::{
    Block, BlockView, block_check, copy_transactions, create_genesis_block, genesis_view,
    transactions_view,
};
use crate::error::{ErrorSpec, MiniChainError, outcome};
use crate::transaction::{TransactionView, earlier};
use crate::validation::{ChainValidation, ValidationIssue};

verus! {

/// The IDs of transactions, in order.
pub open spec fn transaction_ids(txs: Seq<TransactionView>) -> Seq<u128> {
    Seq::new(txs.len(), |i: int| txs[i].id)
}

/// The IDs of all transactions in the first `count` blocks.
pub open spec fn ids_before(blocks: Seq<BlockView>, count: int) -> Seq<u128>
    decreases count,
{
    if count <= 0 {
        seq![]
    } else {
        ids_before(blocks, count - 1) + transaction_ids(blocks[count - 1].transactions)
    }
}

/// The first of `ids` that is already known or repeats an earlier one.
pub open spec fn first_duplicate(known: Seq<u128>, ids: Seq<u128>) -> Option<u128>
    decreases ids.len(),
{
    if ids.len() == 0 {
        None
    } else if known.contains(ids[0]) {
        Some(ids[0])
    } else {
        first_duplicate(known.push(ids[0]), ids.drop_first())
    }
}

/// The outcome of checking that a block repeats no known transaction ID and none of its own.
pub open spec fn unique_check(b: BlockView, known: Seq<u128>) -> Result<(), ErrorSpec> {
    match first_duplicate(known, transaction_ids(b.transactions)) {
        Some(id) => Err(ErrorSpec::DuplicateTransaction { id }),
        None => Ok(()),
    }
}

/// The outcome of checking a block on its own: its contents, then its transaction IDs.
pub open spec fn own_check(b: BlockView) -> Result<(), ErrorSpec> {
    match block_check(b) {
        Err(e) => Err(e),
        Ok(_) => unique_check(b, seq![]),
    }
}

/// The outcome of checking that `b` follows `previous`: the next index, the
/// previous block's hash, and no earlier timestamp.
pub open spec fn link_check(previous: BlockView, b: BlockView) -> Result<(), ErrorSpec> {
    let index = b.header.index;
    let expected = previous.header.index + 1;
    if index != expected {
        Err(ErrorSpec::InvalidBlockIndex { index, expected: expected as u64, actual: index })
    } else if b.header.previous_hash != previous.hash {
        Err(ErrorSpec::InvalidPreviousHash { index })
    } else if earlier(b.header.timestamp, previous.header.timestamp) {
        Err(ErrorSpec::BlockTimestampBeforeParent { index })
    } else {
        Ok(())
    }
}

/// The outcome of checking a block as the successor of `previous`.
pub open spec fn successor_check(previous: BlockView, b: BlockView) -> Result<(), ErrorSpec> {
    match own_check(b) {
        Err(e) => Err(e),
        Ok(_) => link_check(previous, b),
    }
}

/// The outcome of checking the block at `p` of a chain: on its own, against the
/// transaction IDs of the blocks before it, and against the block before it.
pub open spec fn position_check(blocks: Seq<BlockView>, p: int) -> Result<(), ErrorSpec> {
    match own_check(blocks[p]) {
        Err(e) => Err(e),
        Ok(_) => match unique_check(blocks[p], ids_before(blocks, p)) {
            Err(e) => Err(e),
            Ok(_) => if p > 0 {
                link_check(blocks[p - 1], blocks[p])
            } else {
                Ok(())
            },
        },
    }
}

/// The outcome of checking the blocks from `p` on, stopping at the first failure.
pub open spec fn positions_check(blocks: Seq<BlockView>, p: int) -> Result<(), ErrorSpec>
    decreases blocks.len() - p,
{
    if p >= blocks.len() || p < 0 {
        Ok(())
    } else {
        match position_check(blocks, p) {
            Err(e) => Err(e),
            Ok(_) => positions_check(blocks, p + 1),
        }
    }
}

/// The outcome of checking a whole chain: it is non-empty, starts with the
/// genesis block, and every block passes its position check.
pub open spec fn chain_check(blocks: Seq<BlockView>) -> Result<(), ErrorSpec> {
    if blocks.len() == 0 {
        Err(ErrorSpec::EmptyChain)
    } else if blocks[0] != genesis_view() {
        Err(ErrorSpec::InvalidGenesis)
    } else {
        positions_check(blocks, 0)
    }
}

/// Whether blocks form a valid chain.
pub open spec fn chain_valid(blocks: Seq<BlockView>) -> bool {
    chain_check(blocks) is Ok
}

/// The values of a sequence of blocks.
pub open spec fn blocks_view(blocks: Seq<Block>) -> Seq<BlockView> {
    Seq::new(blocks.len(), |i: int| blocks[i]@)
}

/// The outcome of appending a block to a chain.
pub open spec fn append_check(blocks: Seq<BlockView>, b: BlockView) -> Result<(), ErrorSpec> {
    match successor_check(blocks.last(), b) {
        Err(e) => Err(e),
        Ok(_) => unique_check(b, ids_before(blocks, blocks.len() as int)),
    }
}

/// A chain of blocks that starts with the genesis block and passes every check.
#[derive(Debug)]
pub struct Blockchain {
    blocks: Vec<Block>,
}

/// Whether `ids` holds `id`.
pub fn contains_id(ids: &Vec<u128>, id: u128) -> (r: bool)
    ensures
        r == ids@.contains(id),
{
    let mut i: usize = 0;
    while i < ids.len()
        invariant
            i <= ids@.len(),
            forall|k: int| 0 <= k < i ==> ids@[k] != id,
        decreases ids@.len() - i,
    {
        if ids[i] == id {
            return true;
        }
        i = i + 1;
    }
    false
}

/// Appends the IDs of a block's transactions.
fn extend_ids(ids: &mut Vec<u128>, block: &Block)
    ensures
        final(ids)@ == old(ids)@ + transaction_ids(block@.transactions),
{
    let ghost start = ids@;
    let mut i: usize = 0;
    while i < block.transactions.len()
        invariant
            i <= block.transactions@.len(),
            ids@ =~= start + transaction_ids(block@.transactions).subrange(0, i as int),
        decreases block.transactions@.len() - i,
    {
        ids.push(block.transactions[i].id);
        i = i + 1;
    }
    assert(transaction_ids(block@.transactions).subrange(0, block.transactions@.len() as int)
        =~= transaction_ids(block@.transactions));
}

/// Checks that a block repeats none of `known_ids` and none of its own transaction IDs.
pub fn validate_unique_transactions(block: &Block, known_ids: &Vec<u128>) -> (r: Result<
    (),
    MiniChainError,
>)
    ensures
        outcome(r) == unique_check(block@, known_ids@),
{
    let ghost all = transaction_ids(block@.transactions);
    let mut ids = known_ids.clone();
    assert(all.skip(0) =~= all);
    let mut i: usize = 0;
    while i < block.transactions.len()
        invariant
            i <= block.transactions@.len(),
            all == transaction_ids(block@.transactions),
            first_duplicate(known_ids@, all) == first_duplicate(ids@, all.skip(i as int)),
        decreases block.transactions@.len() - i,
    {
        let id = block.transactions[i].id;
        assert(all.skip(i as int)[0] == id);
        if contains_id(&ids, id) {
            return Err(MiniChainError::DuplicateTransaction { id });
        }
        assert(all.skip(i as int).drop_first() =~= all.skip(i + 1));
        ids.push(id);
        i = i + 1;
    }
    Ok(())
}

/// Checks a block on its own.
pub fn validate_block(block: &Block) -> (r: Result<(), MiniChainError>)
    ensures
        outcome(r) == own_check(block@),
{
    block.validate_contents()?;
    let none: Vec<u128> = Vec::new();
    assert(none@ =~= seq![]);
    validate_unique_transactions(block, &none)
}

/// Checks that `block` follows `previous`.
pub fn validate_link(previous: &Block, block: &Block) -> (r: Result<(), MiniChainError>)
    requires
        previous.header.index < u64::MAX,
    ensures
        outcome(r) == link_check(previous@, block@),
{
    let index = block.header.index;
    let expected = previous.header.index + 1;
    if index != expected {
        return Err(MiniChainError::InvalidBlockIndex { index, expected, actual: index });
    }
    if block.header.previous_hash != previous.hash {
        return Err(MiniChainError::InvalidPreviousHash { index });
    }
    if block.header.timestamp.is_before(&previous.header.timestamp) {
        return Err(MiniChainError::BlockTimestampBeforeParent { index });
    }
    Ok(())
}

/// Checks a block on its own and as the successor of `previous`.
pub fn validate_next_block(previous: &Block, block: &Block) -> (r: Result<(), MiniChainError>)
    requires
        previous.header.index < u64::MAX,
    ensures
        outcome(r) == successor_check(previous@, block@),
{
    validate_block(block)?;
    validate_link(previous, block)
}

proof fn lemma_ids_before_prefix(blocks: Seq<BlockView>, b: BlockView, p: int)
    requires
        0 <= p <= blocks.len(),
    ensures
        ids_before(blocks.push(b), p) == ids_before(blocks, p),
    decreases p,
{
    if p > 0 {
        lemma_ids_before_prefix(blocks, b, p - 1);
        assert(blocks.push(b)[p - 1] == blocks[p - 1]);
    }
}

proof fn lemma_positions_extend(blocks: Seq<BlockView>, b: BlockView, p: int)
    requires
        0 <= p <= blocks.len(),
        positions_check(blocks, p) is Ok,
        position_check(blocks.push(b), blocks.len() as int) is Ok,
    ensures
        positions_check(blocks.push(b), p) is Ok,
    decreases blocks.len() - p,
{
    let longer = blocks.push(b);
    if p == blocks.len() {
        assert(positions_check(longer, p + 1) is Ok);
    } else {
        lemma_positions_extend(blocks, b, p + 1);
        lemma_ids_before_prefix(blocks, b, p);
        assert(longer[p] == blocks[p]);
        if p > 0 {
            assert(longer[p - 1] == blocks[p - 1]);
        }
        assert(position_check(longer, p) == position_check(blocks, p));
    }
}

/// Every position of a chain whose checks pass from `p` on passes its own check.
proof fn lemma_positions_all_ok(blocks: Seq<BlockView>, p: int, q: int)
    requires
        0 <= p <= q < blocks.len(),
        positions_check(blocks, p) is Ok,
    ensures
        position_check(blocks, q) is Ok,
    decreases q - p,
{
    if p < q {
        lemma_positions_all_ok(blocks, p + 1, q);
    }
}

/// In a valid chain, the block at position `p` has index `p`.
pub proof fn lemma_valid_indices(blocks: Seq<BlockView>, p: int)
    requires
        chain_valid(blocks),
        0 <= p < blocks.len(),
    ensures
        blocks[p].header.index == p,
    decreases p,
{
    if p == 0 {
        assert(blocks[0] == genesis_view());
    } else {
        lemma_valid_indices(blocks, p - 1);
        lemma_positions_all_ok(blocks, 0, p);
    }
}

/// Every block of a valid chain passes the checks of its own contents and
/// sits at the position its index names.
pub proof fn lemma_valid_blocks_pass(blocks: Seq<BlockView>, p: int)
    requires
        chain_valid(blocks),
        0 <= p < blocks.len(),
    ensures
        block_check(blocks[p]) is Ok,
        blocks[p].header.index == p,
{
    lemma_positions_all_ok(blocks, 0, p);
    lemma_valid_indices(blocks, p);
}

/// In a valid chain no block is older than its parent: each block's time, by
/// seconds and then nanoseconds, is at or after the time of the block before it.
pub proof fn lemma_valid_chain_time_never_goes_back(blocks: Seq<BlockView>, p: int)
    requires
        chain_valid(blocks),
        0 < p < blocks.len(),
    ensures
        blocks[p].header.timestamp.seconds > blocks[p - 1].header.timestamp.seconds || (
        blocks[p].header.timestamp.seconds == blocks[p - 1].header.timestamp.seconds
            && blocks[p].header.timestamp.nanos >= blocks[p - 1].header.timestamp.nanos),
{
    lemma_positions_all_ok(blocks, 0, p);
}

/// A block older than the chain's newest block is refused: one that passes
/// its own checks and links to the newest block by index and hash, but whose
/// time, by seconds and then nanoseconds, is before the newest block's, gives
/// `BlockTimestampBeforeParent` for its index; and every block that is
/// appended has a time at or after its parent's.
pub proof fn lemma_older_block_refused(blocks: Seq<BlockView>, b: BlockView)
    requires
        blocks.len() > 0,
    ensures
        own_check(b) is Ok && b.header.index == blocks.last().header.index + 1
            && b.header.previous_hash == blocks.last().hash && (b.header.timestamp.seconds
            < blocks.last().header.timestamp.seconds || (b.header.timestamp.seconds
            == blocks.last().header.timestamp.seconds && b.header.timestamp.nanos
            < blocks.last().header.timestamp.nanos)) ==> append_check(blocks, b) == Err::<
            (),
            ErrorSpec,
        >(ErrorSpec::BlockTimestampBeforeParent { index: b.header.index }),
        append_check(blocks, b) is Ok ==> b.header.timestamp.seconds
            > blocks.last().header.timestamp.seconds || (b.header.timestamp.seconds
            == blocks.last().header.timestamp.seconds && b.header.timestamp.nanos
            >= blocks.last().header.timestamp.nanos),
{
}

/// Appending a block that passes `append_check` to a valid chain gives a valid chain.
pub proof fn lemma_append_keeps_chain_valid(blocks: Seq<BlockView>, b: BlockView)
    requires
        chain_valid(blocks),
        append_check(blocks, b) is Ok,
    ensures
        chain_valid(blocks.push(b)),
{
    let longer = blocks.push(b);
    let n = blocks.len() as int;
    lemma_ids_before_prefix(blocks, b, n);
    assert(longer[n] == b);
    assert(longer[n - 1] == blocks.last());
    assert(own_check(b) is Ok);
    assert(position_check(longer, n) is Ok);
    lemma_positions_extend(blocks, b, 0);
    assert(longer[0] == blocks[0]);
}

impl Blockchain {
    /// The blocks are a valid chain.
    pub closed spec fn valid(&self) -> bool {
        chain_valid(blocks_view(self.blocks@))
    }

    /// The blocks of this chain.
    pub closed spec fn chain(&self) -> Seq<BlockView> {
        blocks_view(self.blocks@)
    }

    /// A chain that is well-formed passes every check.
    pub proof fn lemma_valid(&self)
        requires
            self.valid(),
        ensures
            chain_valid(self.chain()),
            self.chain().len() > 0,
    {
    }

    /// The chain that holds only the genesis block.
    pub fn new() -> (r: Result<Self, MiniChainError>)
        ensures
            r matches Ok(chain) && chain.valid() && chain.chain() == seq![genesis_view()],
    {
        let mut blocks: Vec<Block> = Vec::new();
        blocks.push(create_genesis_block());
        let r = Self::from_blocks(blocks);
        proof {
            let v = seq![genesis_view()];
            assert(blocks_view(blocks@) =~= v);
            assert(positions_check(v, 1) is Ok);
            assert(ids_before(v, 0) =~= seq![]);
            assert(transaction_ids(genesis_view().transactions) =~= seq![]);
            assert(position_check(v, 0) is Ok);
        }
        r
    }

    /// The chain of `blocks`, if they form a valid chain.
    pub fn from_blocks(blocks: Vec<Block>) -> (r: Result<Self, MiniChainError>)
        ensures
            r matches Ok(chain) ==> chain.valid() && chain.chain() == blocks_view(blocks@),
            r is Ok <==> chain_valid(blocks_view(blocks@)),
            r matches Err(e) ==> chain_check(blocks_view(blocks@)) == Err::<(), ErrorSpec>(e@),
    {
        validate_strict(&blocks)?;
        Ok(Blockchain { blocks })
    }

    /// The blocks, oldest first.
    pub fn blocks(&self) -> (r: &[Block])
        ensures
            blocks_view(r@) == self.chain(),
    {
        self.blocks.as_slice()
    }

    /// The index of the newest block.
    pub fn height(&self) -> (h: u64)
        requires
            self.valid(),
        ensures
            h == self.chain().last().header.index,
            h == self.chain().len() - 1,
    {
        proof {
            lemma_valid_indices(self.chain(), self.chain().len() - 1);
        }
        self.blocks[self.blocks.len() - 1].header.index
    }

    /// The newest block.
    pub fn tip(&self) -> (b: &Block)
        requires
            self.valid(),
        ensures
            b@ == self.chain().last(),
    {
        &self.blocks[self.blocks.len() - 1]
    }

    /// The block at `index`, if there is one.
    pub fn block_at(&self, index: u64) -> (r: Option<&Block>)
        ensures
            index < self.chain().len() ==> (r matches Some(b) && b@ == self.chain()[index as int]),
            index >= self.chain().len() ==> r is None,
    {
        if index < self.blocks.len() as u64 {
            Some(&self.blocks[index as usize])
        } else {
            None
        }
    }

    /// The IDs of all transactions in the chain.
    pub fn transaction_ids(&self) -> (ids: Vec<u128>)
        ensures
            ids@ == ids_before(self.chain(), self.chain().len() as int),
    {
        let mut ids: Vec<u128> = Vec::new();
        let mut i: usize = 0;
        while i < self.blocks.len()
            invariant
                i <= self.blocks@.len(),
                ids@ == ids_before(self.chain(), i as int),
            decreases self.blocks@.len() - i,
        {
            extend_ids(&mut ids, &self.blocks[i]);
            assert(self.chain()[i as int] == self.blocks@[i as int]@);
            i = i + 1;
        }
        ids
    }

    /// Appends `block` if it validly extends the chain.
    #[verifier::rlimit(40)]
    pub fn append(&mut self, block: Block) -> (r: Result<(), MiniChainError>)
        requires
            old(self).valid(),
        ensures
            outcome(r) == append_check(old(self).chain(), block@),
            final(self).valid(),
            r is Ok ==> final(self).chain() == old(self).chain().push(block@),
            r is Err ==> final(self).chain() == old(self).chain(),
    {
        proof {
            lemma_valid_indices(self.chain(), self.chain().len() - 1);
        }
        let ghost before = self.chain();
        let count = self.blocks.len();
        let tip = self.tip();
        assert(tip.header.index == before.len() - 1);
        validate_next_block(tip, &block)?;
        let existing = self.transaction_ids();
        validate_unique_transactions(&block, &existing)?;
        proof {
            lemma_append_keeps_chain_valid(before, block@);
        }
        self.blocks.push(block);
        proof {
            assert(blocks_view(self.blocks@) =~= before.push(block@));
        }
        Ok(())
    }

    /// Checks that `block` can follow `previous`, ignoring transactions elsewhere in the chain.
    pub fn validate_successor(previous: &Block, block: &Block) -> (r: Result<(), MiniChainError>)
        requires
            previous.header.index < u64::MAX,
        ensures
            outcome(r) == (match successor_check(previous@, block@) {
                Err(e) => Err(e),
                Ok(_) => unique_check(block@, seq![]),
            }),
    {
        validate_next_block(previous, block)?;
        let none: Vec<u128> = Vec::new();
        assert(none@ =~= seq![]);
        validate_unique_transactions(block, &none)
    }

    /// A report on the whole chain. Every `Blockchain` passed every check
    /// when it was built and cannot change but by a checked append, so the
    /// report is always the valid one, over all its blocks.
    pub fn validate(&self) -> (report: ChainValidation)
        requires
            self.valid(),
        ensures
            report.valid,
            report.checked_blocks == self.chain().len(),
            report.issues@.len() == 0,
    {
        ChainValidation::valid(self.blocks.len())
    }

    /// The blocks of this chain, copied.
    pub fn copy_blocks(&self) -> (r: Vec<Block>)
        ensures
            blocks_view(r@) == self.chain(),
    {
        let mut out: Vec<Block> = Vec::new();
        let mut i: usize = 0;
        while i < self.blocks.len()
            invariant
                i <= self.blocks@.len(),
                out@.len() == i,
                forall|k: int| 0 <= k < i ==> (#[trigger] out@[k])@ == self.blocks@[k]@,
            decreases self.blocks@.len() - i,
        {
            out.push(self.blocks[i].clone());
            i = i + 1;
        }
        assert(blocks_view(out@) =~= self.chain());
        out
    }
}

/// Checks a whole chain, stopping at the first problem.
pub fn validate_strict(blocks: &Vec<Block>) -> (r: Result<(), MiniChainError>)
    ensures
        outcome(r) == chain_check(blocks_view(blocks@)),
{
    let ghost chain = blocks_view(blocks@);
    if blocks.len() == 0 {
        return Err(MiniChainError::EmptyChain);
    }
    if !blocks[0].is_genesis() {
        return Err(MiniChainError::InvalidGenesis);
    }
    let mut ids: Vec<u128> = Vec::new();
    let mut position: usize = 0;
    while position < blocks.len()
        invariant
            chain == blocks_view(blocks@),
            chain.len() == blocks@.len(),
            chain.len() > 0,
            chain[0] == genesis_view(),
            position <= chain.len(),
            ids@ == ids_before(chain, position as int),
            positions_check(chain, 0) == positions_check(chain, position as int),
            forall|k: int| 0 <= k < position ==> #[trigger] chain[k].header.index == k,
        decreases blocks@.len() - position,
    {
        let block = &blocks[position];
        assert(chain[position as int] == block@);
        validate_block(block)?;
        validate_unique_transactions(block, &ids)?;
        extend_ids(&mut ids, block);
        if position > 0 {
            assert(chain[position - 1] == blocks@[position - 1]@);
            validate_link(&blocks[position - 1], block)?;
        }
        proof {
            if position == 0 {
                assert(chain[0].header.index == 0);
            }
        }
        position = position + 1;
    }
    Ok(())
}

/// An issue at a block, described by an error's message.
pub fn issue(block_index: u64, error: MiniChainError) -> (r: ValidationIssue)
    ensures
        r.block_index == block_index,
        r.reason@ == crate::error::error_message(error@),
{
    ValidationIssue { block_index, reason: error.message() }
}

} // verus!
