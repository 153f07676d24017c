//! Blocks: an ordered group of transactions under a hashed header.
use vstd::prelude::*;

use crate::crypto::{sha256, sha256_digest};
use crate::error::{ErrorSpec, MiniChainError, outcome};
use crate::json::{append_string, text_field};
use crate::merkle::{
    MerkleTree, all_digests, empty_merkle_root, empty_root_text, leaves_of, sorted_hashes,
    tree_levels,
};
use crate::text::{be_bytes, encode_hex, hex_text, push_be, push_char, texts};
use crate::transaction::{
    Timestamp, Transaction, TransactionView, append_timestamp, current_time, random_id,
    timestamp_bytes, transaction_check,
};

verus! {

/// The block format this library writes and accepts.
pub const CURRENT_BLOCK_VERSION: u16 = 1;

/// The hashed header of a block.
#[derive(Debug, PartialEq, Eq)]
pub struct BlockHeader {
    pub index: u64,
    pub block_id: u128,
    pub timestamp: Timestamp,
    pub previous_hash: String,
    pub merkle_root: String,
    pub validator_id: String,
    pub validator_signature: Option<String>,
    pub version: u16,
}

/// The value of a block header.
pub struct HeaderView {
    pub index: u64,
    pub block_id: u128,
    pub timestamp: Timestamp,
    pub previous_hash: Seq<char>,
    pub merkle_root: Seq<char>,
    pub validator_id: Seq<char>,
    pub validator_signature: Option<Seq<char>>,
    pub version: u16,
}

impl View for BlockHeader {
    type V = HeaderView;

    open spec fn view(&self) -> HeaderView {
        HeaderView {
            index: self.index,
            block_id: self.block_id,
            timestamp: self.timestamp,
            previous_hash: self.previous_hash@,
            merkle_root: self.merkle_root@,
            validator_id: self.validator_id@,
            validator_signature: match self.validator_signature {
                Some(s) => Some(s@),
                None => None,
            },
            version: self.version,
        }
    }
}

impl Clone for BlockHeader {
    fn clone(&self) -> (r: Self)
        ensures
            r@ == self@,
    {
        BlockHeader {
            index: self.index,
            block_id: self.block_id,
            timestamp: self.timestamp,
            previous_hash: self.previous_hash.clone(),
            merkle_root: self.merkle_root.clone(),
            validator_id: self.validator_id.clone(),
            validator_signature: match &self.validator_signature {
                Some(s) => Some(s.clone()),
                None => None,
            },
            version: self.version,
        }
    }
}

/// A block: a header, its transactions and the hash of both.
#[derive(Debug)]
pub struct Block {
    pub header: BlockHeader,
    pub transactions: Vec<Transaction>,
    pub hash: String,
}

/// The value of a block.
pub struct BlockView {
    pub header: HeaderView,
    pub transactions: Seq<TransactionView>,
    pub hash: Seq<char>,
}

/// The values of a sequence of transactions.
pub open spec fn transactions_view(txs: Seq<Transaction>) -> Seq<TransactionView> {
    Seq::new(txs.len(), |i: int| txs[i]@)
}

impl View for Block {
    type V = BlockView;

    open spec fn view(&self) -> BlockView {
        BlockView {
            header: self.header@,
            transactions: transactions_view(self.transactions@),
            hash: self.hash@,
        }
    }
}

/// The hashes that a sequence of transactions carries.
pub open spec fn transaction_hashes(txs: Seq<TransactionView>) -> Seq<Seq<char>> {
    Seq::new(txs.len(), |i: int| txs[i].hash)
}

/// The hash fields of transactions, one after another.
pub open spec fn hash_fields(txs: Seq<TransactionView>) -> Seq<u8>
    decreases txs.len(),
{
    if txs.len() == 0 {
        seq![]
    } else {
        hash_fields(txs.drop_last()) + text_field(txs.last().hash)
    }
}

/// The bytes a block hash covers.
pub open spec fn block_bytes(b: BlockView) -> Seq<u8> {
    be_bytes(b.header.version as nat, 2) + be_bytes(b.header.index as nat, 8) + be_bytes(
        b.header.block_id as nat,
        16,
    ) + timestamp_bytes(b.header.timestamp) + text_field(b.header.previous_hash) + text_field(
        b.header.merkle_root,
    ) + text_field(b.header.validator_id) + match b.header.validator_signature {
        Some(s) => seq![1u8] + text_field(s),
        None => seq![0u8],
    } + be_bytes(b.transactions.len(), 8) + hash_fields(b.transactions)
}

/// The hash a block should carry: SHA-256 of its bytes, as text.
pub open spec fn block_hash(b: BlockView) -> Seq<char> {
    hex_text(sha256_digest(block_bytes(b)))
}

/// The Merkle root of transactions, as text: the empty root when there are
/// none, else the root of the tree over their hashes.
pub open spec fn merkle_root_of(txs: Seq<TransactionView>) -> Result<Seq<char>, ErrorSpec> {
    if txs.len() == 0 {
        Ok(empty_root_text())
    } else if !all_digests(transaction_hashes(txs)) {
        Err(ErrorSpec::InvalidHex)
    } else {
        Ok(
            hex_text(
                tree_levels(leaves_of(sorted_hashes(transaction_hashes(txs)))).last()[0],
            ),
        )
    }
}

/// The error of the first transaction that fails validation, if any.
pub open spec fn first_transaction_error(txs: Seq<TransactionView>) -> Option<ErrorSpec>
    decreases txs.len(),
{
    if txs.len() == 0 {
        None
    } else {
        match transaction_check(txs[0]) {
            Err(e) => Some(e),
            Ok(_) => first_transaction_error(txs.drop_first()),
        }
    }
}

/// The outcome of checking a block's own contents: version, non-emptiness
/// after the genesis block, every transaction, the Merkle root and the hash.
pub open spec fn block_check(b: BlockView) -> Result<(), ErrorSpec> {
    let index = b.header.index;
    if b.header.version != CURRENT_BLOCK_VERSION {
        Err(ErrorSpec::UnsupportedBlockVersion { index, version: b.header.version })
    } else if index > 0 && b.transactions.len() == 0 {
        Err(ErrorSpec::EmptyBlock { index })
    } else if first_transaction_error(b.transactions) is Some {
        Err(first_transaction_error(b.transactions)->0)
    } else {
        match merkle_root_of(b.transactions) {
            Err(e) => Err(e),
            Ok(root) => if b.header.merkle_root != root {
                Err(ErrorSpec::InvalidMerkleRoot { index })
            } else if b.hash != block_hash(b) {
                Err(
                    ErrorSpec::InvalidBlockHash {
                        index,
                        expected: b.hash,
                        calculated: block_hash(b),
                    },
                )
            } else {
                Ok(())
            },
        }
    }
}

proof fn lemma_no_transaction_error(txs: Seq<TransactionView>)
    requires
        forall|i: int| 0 <= i < txs.len() ==> (#[trigger] transaction_check(txs[i])) is Ok,
    ensures
        first_transaction_error(txs) is None,
    decreases txs.len(),
{
    if txs.len() > 0 {
        assert(transaction_check(txs[0]) is Ok);
        assert forall|i: int| 0 <= i < txs.drop_first().len() implies (#[trigger] transaction_check(
            txs.drop_first()[i],
        )) is Ok by {
            assert(txs.drop_first()[i] == txs[i + 1]);
        }
        lemma_no_transaction_error(txs.drop_first());
    }
}

/// A block built as `Block::new` builds it passes its own checks when its
/// transactions are valid and it holds some (or is the genesis height):
/// the Merkle root and hash it carries are the ones the check computes.
/// Its version, and its emptiness past the genesis height, are checked
/// first.
pub proof fn lemma_built_block_checks(b: BlockView)
    requires
        merkle_root_of(b.transactions) == Ok::<Seq<char>, ErrorSpec>(b.header.merkle_root),
        b.hash == block_hash(b),
    ensures
        b.header.version != CURRENT_BLOCK_VERSION ==> block_check(b) == Err::<(), ErrorSpec>(
            ErrorSpec::UnsupportedBlockVersion { index: b.header.index, version: b.header.version },
        ),
        b.header.version == CURRENT_BLOCK_VERSION && b.header.index > 0 && b.transactions.len() == 0
            ==> block_check(b) == Err::<(), ErrorSpec>(ErrorSpec::EmptyBlock { index: b.header.index }),
        b.header.version == CURRENT_BLOCK_VERSION && (b.header.index == 0 || b.transactions.len() > 0)
            && (forall|i: int|
            0 <= i < b.transactions.len() ==> (#[trigger] transaction_check(b.transactions[i])) is Ok)
            ==> block_check(b) is Ok,
{
    if forall|i: int|
        0 <= i < b.transactions.len() ==> (#[trigger] transaction_check(b.transactions[i])) is Ok {
        lemma_no_transaction_error(b.transactions);
    }
}

/// Copies transactions.
pub fn copy_transactions(txs: &Vec<Transaction>) -> (r: Vec<Transaction>)
    ensures
        transactions_view(r@) == transactions_view(txs@),
{
    let mut out: Vec<Transaction> = Vec::new();
    let mut i: usize = 0;
    while i < txs.len()
        invariant
            i <= txs@.len(),
            out@.len() == i,
            forall|k: int| 0 <= k < i ==> (#[trigger] out@[k])@ == txs@[k]@,
        decreases txs@.len() - i,
    {
        out.push(txs[i].clone());
        i = i + 1;
    }
    assert(transactions_view(out@) =~= transactions_view(txs@));
    out
}

impl Clone for Block {
    fn clone(&self) -> (r: Self)
        ensures
            r@ == self@,
    {
        Block {
            header: self.header.clone(),
            transactions: copy_transactions(&self.transactions),
            hash: self.hash.clone(),
        }
    }
}

/// The hashes of transactions, copied.
pub fn hashes_of(txs: &Vec<Transaction>) -> (r: Vec<String>)
    ensures
        texts(r@) == transaction_hashes(transactions_view(txs@)),
{
    let mut out: Vec<String> = Vec::new();
    let mut i: usize = 0;
    while i < txs.len()
        invariant
            i <= txs@.len(),
            out@.len() == i,
            forall|k: int| 0 <= k < i ==> (#[trigger] out@[k])@ == txs@[k].hash@,
        decreases txs@.len() - i,
    {
        out.push(txs[i].hash.clone());
        i = i + 1;
    }
    assert(texts(out@) =~= transaction_hashes(transactions_view(txs@)));
    out
}

/// The Merkle root of transactions, as text.
pub fn merkle_root_for(txs: &Vec<Transaction>) -> (r: Result<String, MiniChainError>)
    ensures
        match r {
            Ok(root) => merkle_root_of(transactions_view(txs@)) == Ok::<Seq<char>, ErrorSpec>(root@),
            Err(e) => merkle_root_of(transactions_view(txs@)) == Err::<Seq<char>, ErrorSpec>(e@),
        },
{
    if txs.len() == 0 {
        return Ok(empty_merkle_root());
    }
    let hashes = hashes_of(txs);
    let tree = MerkleTree::from_hashes(hashes.as_slice())?;
    Ok(tree.root())
}

/// Whether two optional texts are equal.
pub fn same_optional_text(a: &Option<String>, b: &Option<String>) -> (r: bool)
    ensures
        r == (match (*a, *b) {
            (Some(x), Some(y)) => x@ == y@,
            (None, None) => true,
            _ => false,
        }),
{
    match (a, b) {
        (Some(x), Some(y)) => *x == *y,
        (None, None) => true,
        _ => false,
    }
}

impl Block {
    /// A new block with a fresh ID and the current time.
    pub fn new(index: u64, previous_hash: &str, transactions: Vec<Transaction>, validator_id: &str) -> (r:
        Result<Self, MiniChainError>)
        ensures
            match r {
                Ok(block) => {
                    &&& merkle_root_of(transactions_view(transactions@)) == Ok::<
                        Seq<char>,
                        ErrorSpec,
                    >(block@.header.merkle_root)
                    &&& block@.header.index == index
                    &&& block@.header.previous_hash == previous_hash@
                    &&& block@.header.validator_id == validator_id@
                    &&& block@.header.validator_signature is None
                    &&& block@.header.version == CURRENT_BLOCK_VERSION
                    &&& block@.transactions == transactions_view(transactions@)
                    &&& block@.hash == block_hash(block@)
                },
                Err(e) => merkle_root_of(transactions_view(transactions@)) == Err::<
                    Seq<char>,
                    ErrorSpec,
                >(e@),
            },
    {
        let merkle_root = merkle_root_for(&transactions)?;
        let header = BlockHeader {
            index,
            block_id: random_id(),
            timestamp: current_time(),
            previous_hash: previous_hash.to_owned(),
            merkle_root,
            validator_id: validator_id.to_owned(),
            validator_signature: None,
            version: CURRENT_BLOCK_VERSION,
        };
        Ok(Self::from_header(header, transactions))
    }

    /// The block with the given header and transactions, and its hash.
    pub fn from_header(header: BlockHeader, transactions: Vec<Transaction>) -> (block: Self)
        ensures
            block@.header == header@,
            block@.transactions == transactions_view(transactions@),
            block@.hash == block_hash(block@),
    {
        let mut block = Block { header, transactions, hash: String::new() };
        block.hash = block.calculate_hash();
        block
    }

    /// SHA-256 of the block bytes, as lowercase hexadecimal text.
    pub fn calculate_hash(&self) -> (h: String)
        ensures
            h@ == block_hash(self@),
    {
        let bytes = self.canonical_bytes();
        encode_hex(sha256(bytes.as_slice()).as_slice())
    }

    /// Whether the stored hash is the calculated one.
    pub fn has_valid_hash(&self) -> (r: bool)
        ensures
            r == (self@.hash == block_hash(self@)),
    {
        self.hash == self.calculate_hash()
    }

    /// The Merkle root that the transactions give.
    pub fn calculated_merkle_root(&self) -> (r: Result<String, MiniChainError>)
        ensures
            match r {
                Ok(root) => merkle_root_of(self@.transactions) == Ok::<Seq<char>, ErrorSpec>(root@),
                Err(e) => merkle_root_of(self@.transactions) == Err::<Seq<char>, ErrorSpec>(e@),
            },
    {
        merkle_root_for(&self.transactions)
    }

    /// Checks the version, non-emptiness, every transaction, the Merkle root and the hash.
    pub fn validate_contents(&self) -> (r: Result<(), MiniChainError>)
        ensures
            outcome(r) == block_check(self@),
    {
        let index = self.header.index;
        if self.header.version != CURRENT_BLOCK_VERSION {
            return Err(MiniChainError::UnsupportedBlockVersion { index, version: self.header.version });
        }
        if self.header.index > 0 && self.transactions.len() == 0 {
            return Err(MiniChainError::EmptyBlock { index });
        }
        let ghost all = transactions_view(self.transactions@);
        assert(all.skip(0) =~= all);
        let mut i: usize = 0;
        while i < self.transactions.len()
            invariant
                i <= self.transactions@.len(),
                index == self.header.index,
                self.header.version == CURRENT_BLOCK_VERSION,
                !(self.header.index > 0 && self.transactions@.len() == 0),
                all == transactions_view(self.transactions@),
                first_transaction_error(all) == first_transaction_error(all.skip(i as int)),
            decreases self.transactions@.len() - i,
        {
            let result = self.transactions[i].validate();
            proof {
                assert(all.skip(i as int)[0] == self.transactions@[i as int]@);
                assert(all.skip(i as int).drop_first() =~= all.skip(i + 1));
            }
            match result {
                Ok(()) => {},
                Err(e) => {
                    return Err(e);
                },
            }
            i = i + 1;
        }
        let calculated_root = self.calculated_merkle_root()?;
        if self.header.merkle_root != calculated_root {
            return Err(MiniChainError::InvalidMerkleRoot { index });
        }
        let calculated = self.calculate_hash();
        if self.hash != calculated {
            return Err(
                MiniChainError::InvalidBlockHash { index, expected: self.hash.clone(), calculated },
            );
        }
        Ok(())
    }

    /// The bytes that the block hash covers.
    pub fn canonical_bytes(&self) -> (bytes: Vec<u8>)
        ensures
            bytes@ == block_bytes(self@),
    {
        let mut bytes: Vec<u8> = Vec::new();
        push_be(&mut bytes, self.header.version as u128, 2);
        push_be(&mut bytes, self.header.index as u128, 8);
        push_be(&mut bytes, self.header.block_id, 16);
        append_timestamp(&mut bytes, self.header.timestamp);
        append_string(&mut bytes, self.header.previous_hash.as_str());
        append_string(&mut bytes, self.header.merkle_root.as_str());
        append_string(&mut bytes, self.header.validator_id.as_str());
        match &self.header.validator_signature {
            Some(signature) => {
                bytes.push(1u8);
                append_string(&mut bytes, signature.as_str());
            },
            None => {
                bytes.push(0u8);
            },
        }
        push_be(&mut bytes, self.transactions.len() as u128, 8);
        let ghost head = bytes@;
        let ghost all = transactions_view(self.transactions@);
        let mut i: usize = 0;
        while i < self.transactions.len()
            invariant
                i <= self.transactions@.len(),
                all == transactions_view(self.transactions@),
                bytes@ == head + hash_fields(all.subrange(0, i as int)),
            decreases self.transactions@.len() - i,
        {
            append_string(&mut bytes, self.transactions[i].hash.as_str());
            proof {
                let next = all.subrange(0, i + 1);
                assert(next.drop_last() =~= all.subrange(0, i as int));
                assert(next.last() == self.transactions@[i as int]@);
            }
            i = i + 1;
        }
        assert(all.subrange(0, self.transactions@.len() as int) =~= all);
        assert(bytes@ =~= block_bytes(self@));
        bytes
    }
}

/// The ID of the genesis block.
pub const GENESIS_ID: u128 = 0x6d696e69636861696e00000000000001u128;

/// The validator named in the genesis block.
pub open spec fn genesis_validator() -> Seq<char> {
    "minichain-genesis"@
}

/// Sixty-four zero digits: the previous hash of the genesis block.
pub open spec fn zero_hash_text() -> Seq<char> {
    Seq::new(64, |i: int| '0')
}

/// The genesis header.
pub open spec fn genesis_header() -> HeaderView {
    HeaderView {
        index: 0,
        block_id: GENESIS_ID,
        timestamp: Timestamp { seconds: 1735689600, nanos: 0 },
        previous_hash: zero_hash_text(),
        merkle_root: empty_root_text(),
        validator_id: genesis_validator(),
        validator_signature: None,
        version: CURRENT_BLOCK_VERSION,
    }
}

/// The genesis block: the fixed header, no transactions, and its hash.
pub open spec fn genesis_view() -> BlockView {
    let b = BlockView { header: genesis_header(), transactions: seq![], hash: seq![] };
    BlockView { hash: block_hash(b), ..b }
}

/// The fixed first block of every chain.
pub fn create_genesis_block() -> (block: Block)
    ensures
        block@ == genesis_view(),
{
    let mut zeros = String::new();
    let mut i: usize = 0;
    while i < 64
        invariant
            i <= 64,
            zeros@ =~= Seq::new(i as nat, |k: int| '0'),
        decreases 64 - i,
    {
        push_char(&mut zeros, '0');
        i = i + 1;
    }
    let header = BlockHeader {
        index: 0,
        block_id: GENESIS_ID,
        timestamp: Timestamp { seconds: 1735689600, nanos: 0 },
        previous_hash: zeros,
        merkle_root: empty_merkle_root(),
        validator_id: "minichain-genesis".to_owned(),
        validator_signature: None,
        version: CURRENT_BLOCK_VERSION,
    };
    let block = Block::from_header(header, Vec::new());
    assert(block@.transactions =~= seq![]);
    assert(block@.header == genesis_header());
    block
}

impl Block {
    /// Whether this block is the genesis block.
    pub fn is_genesis(&self) -> (r: bool)
        ensures
            r == (self@ == genesis_view()),
    {
        let genesis = create_genesis_block();
        let h = &self.header;
        let g = &genesis.header;
        let r = h.index == g.index && h.block_id == g.block_id && h.timestamp == g.timestamp
            && h.previous_hash == g.previous_hash && h.merkle_root == g.merkle_root
            && h.validator_id == g.validator_id && same_optional_text(
            &h.validator_signature,
            &g.validator_signature,
        ) && h.version == g.version && self.transactions.len() == 0 && self.hash == genesis.hash;
        proof {
            if r {
                assert(self@.transactions =~= genesis@.transactions);
                assert(self@.header == genesis@.header);
            }
        }
        r
    }
}

impl Block {
    /// Whether two blocks are equal.
    pub fn same_as(&self, other: &Block) -> (r: bool)
        ensures
            r == (self@ == other@),
    {
        let h = &self.header;
        let g = &other.header;
        let same_header = h.index == g.index && h.block_id == g.block_id && h.timestamp == g.timestamp
            && h.previous_hash == g.previous_hash && h.merkle_root == g.merkle_root
            && h.validator_id == g.validator_id && same_optional_text(
            &h.validator_signature,
            &g.validator_signature,
        ) && h.version == g.version;
        if !same_header || self.hash != other.hash {
            return false;
        }
        if self.transactions.len() != other.transactions.len() {
            assert(self@.transactions.len() != other@.transactions.len());
            return false;
        }
        let mut i: usize = 0;
        while i < self.transactions.len()
            invariant
                self.transactions@.len() == other.transactions@.len(),
                i <= self.transactions@.len(),
                forall|k: int| 0 <= k < i ==> self.transactions@[k]@ == other.transactions@[k]@,
            decreases self.transactions@.len() - i,
        {
            if !self.transactions[i].same_as(&other.transactions[i]) {
                assert(self@.transactions[i as int] != other@.transactions[i as int]);
                return false;
            }
            i = i + 1;
        }
        assert(self@.transactions =~= other@.transactions);
        assert(self@.header == other@.header);
        true
    }
}

} // verus!
