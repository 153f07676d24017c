//! What a node keeps beside its blocks: the index of records and the index of
//! transactions, the chain's metadata, and snapshots; and the checks that keep
//! all of them consistent with the chain.
use vstd::prelude::*;

use crate::block::{
    Block, BlockView, block_check, genesis_view, hashes_of, transaction_hashes, transactions_view,
};
use crate::chain::{
    Blockchain, blocks_view, chain_check, chain_valid, first_duplicate, ids_before,
    lemma_append_keeps_chain_valid, lemma_valid_blocks_pass, lemma_valid_indices, position_check,
    positions_check, successor_check, transaction_ids, unique_check,
};
use crate::error::{ErrorSpec, MiniChainError, error_message, outcome};
use crate::json::{JsonSpec, JsonValue, json_equal};
use crate::crypto::{sha256, sha256_digest};
use crate::keyed::{
    keyed_map, lemma_keyed_index, lemma_keyed_len, lemma_keyed_push, lemma_keyed_update,
    unique_keys,
};
use crate::merkle::{all_digests, proves_inclusion, tree_root_text};
use crate::text::{encode_hex, hex_text, same_text};
use crate::transaction::{Operation, Timestamp, Transaction, TransactionView, earlier, random_id};

verus! {

/// The version of the stored layout.
pub const STORAGE_SCHEMA_VERSION: u16 = 1;

/// Whether a record is in force.
#[derive(Clone, Copy, Debug, PartialEq, Eq, Structural)]
pub enum RecordStatus {
    Active,
    Revoked,
}

/// The current state of a record: its data, status, and the transaction and
/// block that last changed it.
#[derive(Debug)]
pub struct RecordIndex {
    pub record_id: String,
    pub data: JsonValue,
    pub status: RecordStatus,
    pub latest_transaction_id: u128,
    pub block_height: u64,
}

/// The value of a record.
pub struct RecordView {
    pub record_id: Seq<char>,
    pub data: JsonSpec,
    pub status: RecordStatus,
    pub latest_transaction_id: u128,
    pub block_height: u64,
}

impl View for RecordIndex {
    type V = RecordView;

    open spec fn view(&self) -> RecordView {
        RecordView {
            record_id: self.record_id@,
            data: self.data@,
            status: self.status,
            latest_transaction_id: self.latest_transaction_id,
            block_height: self.block_height,
        }
    }
}

impl Clone for RecordIndex {
    fn clone(&self) -> (r: Self)
        ensures
            r@ == self@,
    {
        RecordIndex {
            record_id: self.record_id.clone(),
            data: self.data.deep_copy(),
            status: self.status,
            latest_transaction_id: self.latest_transaction_id,
            block_height: self.block_height,
        }
    }
}

impl RecordIndex {
    /// Whether two records are equal.
    pub fn same_as(&self, other: &RecordIndex) -> (r: bool)
        ensures
            r == (self@ == other@),
    {
        same_text(self.record_id.as_str(), other.record_id.as_str()) && json_equal(
            &self.data,
            &other.data,
        ) && self.status == other.status && self.latest_transaction_id
            == other.latest_transaction_id && self.block_height == other.block_height
    }
}

/// The record that creating or updating with `t` at `height` leaves.
pub open spec fn written_record(t: TransactionView, height: u64) -> RecordView {
    RecordView {
        record_id: t.record_id,
        data: t.payload,
        status: RecordStatus::Active,
        latest_transaction_id: t.id,
        block_height: height,
    }
}

/// The record `r` after revoking it with `t` at `height`.
pub open spec fn revoked_record(r: RecordView, t: TransactionView, height: u64) -> RecordView {
    RecordView {
        status: RecordStatus::Revoked,
        latest_transaction_id: t.id,
        block_height: height,
        ..r
    }
}

/// Whether an operation creates or updates a record.
pub open spec fn writes(op: Operation) -> bool {
    op == Operation::CreateRecord || op == Operation::UpdateRecord
}

/// The records after transaction `t` in the block at `height`: creating and
/// updating write the record, revoking marks an existing record revoked, and
/// the other operations change nothing.
pub open spec fn apply_record_spec(
    records: Map<Seq<char>, RecordView>,
    t: TransactionView,
    height: u64,
) -> Map<Seq<char>, RecordView> {
    if writes(t.operation) {
        records.insert(t.record_id, written_record(t, height))
    } else if t.operation == Operation::RevokeRecord && records.contains_key(t.record_id) {
        records.insert(t.record_id, revoked_record(records[t.record_id], t, height))
    } else {
        records
    }
}

/// What each operation does to the record index: creating or updating a
/// record sets it to the transaction's payload, active, naming the
/// transaction and its block; revoking a record that exists marks it revoked,
/// keeping its data and naming the transaction and its block; revoking one
/// that does not exist, verifying, and auditing change nothing. No other
/// record changes.
pub proof fn lemma_record_operations(records: Map<Seq<char>, RecordView>, t: TransactionView, height: u64)
    ensures
        ({
            let after = apply_record_spec(records, t, height);
            &&& (t.operation == Operation::CreateRecord || t.operation == Operation::UpdateRecord)
                ==> after == records.insert(
                t.record_id,
                RecordView {
                    record_id: t.record_id,
                    data: t.payload,
                    status: RecordStatus::Active,
                    latest_transaction_id: t.id,
                    block_height: height,
                },
            )
            &&& (t.operation == Operation::RevokeRecord && records.contains_key(t.record_id))
                ==> after == records.insert(
                t.record_id,
                RecordView {
                    record_id: records[t.record_id].record_id,
                    data: records[t.record_id].data,
                    status: RecordStatus::Revoked,
                    latest_transaction_id: t.id,
                    block_height: height,
                },
            )
            &&& (t.operation == Operation::RevokeRecord && !records.contains_key(t.record_id))
                ==> after == records
            &&& (t.operation == Operation::VerifyRecord || t.operation == Operation::AuditEvent)
                ==> after == records
        }),
{
}

/// A record the last transaction of a chain creates or updates is indexed
/// with that transaction's payload, as active, naming that transaction and
/// the block that holds it.
pub proof fn lemma_chain_record_after_write(blocks: Seq<BlockView>)
    requires
        blocks.len() > 0,
        blocks.last().transactions.len() > 0,
        blocks.last().transactions.last().operation == Operation::CreateRecord
            || blocks.last().transactions.last().operation == Operation::UpdateRecord,
    ensures
        ({
            let t = blocks.last().transactions.last();
            &&& chain_records(blocks).contains_key(t.record_id)
            &&& chain_records(blocks)[t.record_id] == (RecordView {
                record_id: t.record_id,
                data: t.payload,
                status: RecordStatus::Active,
                latest_transaction_id: t.id,
                block_height: blocks.last().header.index,
            })
        }),
{
    let b = blocks.last();
    lemma_record_operations(
        apply_transactions(chain_records(blocks.drop_last()), b.transactions.drop_last(), b.header.index),
        b.transactions.last(),
        b.header.index,
    );
}

/// Within a block's changes, a transaction that creates or updates a record
/// leaves it with that transaction's payload, active, naming the transaction
/// and the block's height, whatever came before it in the block.
pub proof fn lemma_block_write_sets_record(
    stored: Map<Seq<char>, RecordView>,
    txs: Seq<TransactionView>,
    t: TransactionView,
    height: u64,
)
    requires
        t.operation == Operation::CreateRecord || t.operation == Operation::UpdateRecord,
    ensures
        block_updates(stored, txs.push(t), height).contains_key(t.record_id),
        block_updates(stored, txs.push(t), height)[t.record_id] == (RecordView {
            record_id: t.record_id,
            data: t.payload,
            status: RecordStatus::Active,
            latest_transaction_id: t.id,
            block_height: height,
        }),
{
    assert(txs.push(t).drop_last() =~= txs);
    assert(txs.push(t).last() == t);
}

/// The records after the transactions `txs` of the block at `height`, in order.
pub open spec fn apply_transactions(
    records: Map<Seq<char>, RecordView>,
    txs: Seq<TransactionView>,
    height: u64,
) -> Map<Seq<char>, RecordView>
    decreases txs.len(),
{
    if txs.len() == 0 {
        records
    } else {
        apply_record_spec(apply_transactions(records, txs.drop_last(), height), txs.last(), height)
    }
}

/// The records of a chain: every transaction of every block, in order.
pub open spec fn chain_records(blocks: Seq<BlockView>) -> Map<Seq<char>, RecordView>
    decreases blocks.len(),
{
    if blocks.len() == 0 {
        Map::empty()
    } else {
        apply_transactions(
            chain_records(blocks.drop_last()),
            blocks.last().transactions,
            blocks.last().header.index,
        )
    }
}

/// The records a block changes, given the records stored before it: each
/// record written or revoked by the block, as the block leaves it.
pub open spec fn block_updates(
    stored: Map<Seq<char>, RecordView>,
    txs: Seq<TransactionView>,
    height: u64,
) -> Map<Seq<char>, RecordView>
    decreases txs.len(),
{
    if txs.len() == 0 {
        Map::empty()
    } else {
        let updates = block_updates(stored, txs.drop_last(), height);
        let t = txs.last();
        if writes(t.operation) {
            updates.insert(t.record_id, written_record(t, height))
        } else if t.operation == Operation::RevokeRecord && updates.contains_key(t.record_id) {
            updates.insert(t.record_id, revoked_record(updates[t.record_id], t, height))
        } else if t.operation == Operation::RevokeRecord && stored.contains_key(t.record_id) {
            updates.insert(t.record_id, revoked_record(stored[t.record_id], t, height))
        } else {
            updates
        }
    }
}

/// Writing a block's updates over the records stored before it gives the
/// records after the block: the index kept block by block agrees with the
/// index rebuilt from the transactions.
pub proof fn lemma_updates_agree_with_replay(
    stored: Map<Seq<char>, RecordView>,
    txs: Seq<TransactionView>,
    height: u64,
)
    ensures
        stored.union_prefer_right(block_updates(stored, txs, height)) == apply_transactions(
            stored,
            txs,
            height,
        ),
    decreases txs.len(),
{
    if txs.len() == 0 {
        assert(stored.union_prefer_right(Map::empty()) =~= stored);
    } else {
        let rest = txs.drop_last();
        lemma_updates_agree_with_replay(stored, rest, height);
        let u = block_updates(stored, rest, height);
        let a = apply_transactions(stored, rest, height);
        let t = txs.last();
        if writes(t.operation) {
            assert(stored.union_prefer_right(u.insert(t.record_id, written_record(t, height)))
                =~= a.insert(t.record_id, written_record(t, height)));
        } else if t.operation == Operation::RevokeRecord && u.contains_key(t.record_id) {
            assert(a[t.record_id] == u[t.record_id]);
            assert(stored.union_prefer_right(
                u.insert(t.record_id, revoked_record(u[t.record_id], t, height)),
            ) =~= a.insert(t.record_id, revoked_record(a[t.record_id], t, height)));
        } else if t.operation == Operation::RevokeRecord && stored.contains_key(t.record_id) {
            assert(a[t.record_id] == stored[t.record_id]);
            assert(stored.union_prefer_right(
                u.insert(t.record_id, revoked_record(stored[t.record_id], t, height)),
            ) =~= a.insert(t.record_id, revoked_record(a[t.record_id], t, height)));
        } else {
            assert(!a.contains_key(t.record_id) || t.operation != Operation::RevokeRecord);
        }
    }
}

/// Committing a block to a chain's record index, by writing the block's
/// updates over it, gives the record index of the chain with that block.
pub proof fn lemma_commit_matches_rebuild(blocks: Seq<BlockView>, b: BlockView)
    ensures
        chain_records(blocks).union_prefer_right(
            block_updates(chain_records(blocks), b.transactions, b.header.index),
        ) == chain_records(blocks.push(b)),
{
    lemma_updates_agree_with_replay(chain_records(blocks), b.transactions, b.header.index);
    assert(blocks.push(b).drop_last() =~= blocks);
}

/// The key of a record: its ID.
pub open spec fn record_key() -> spec_fn(RecordView) -> Seq<char> {
    |r: RecordView| r.record_id
}

/// The values of a sequence of records.
pub open spec fn records_view(records: Seq<RecordIndex>) -> Seq<RecordView> {
    Seq::new(records.len(), |i: int| records[i]@)
}

/// Records, one per record ID.
#[derive(Debug)]
pub struct RecordTable {
    records: Vec<RecordIndex>,
}

impl View for RecordTable {
    type V = Map<Seq<char>, RecordView>;

    closed spec fn view(&self) -> Map<Seq<char>, RecordView> {
        keyed_map(records_view(self.records@), record_key())
    }
}

impl RecordTable {
    /// Well-formedness: one record per ID.
    pub closed spec fn valid(&self) -> bool {
        unique_keys(records_view(self.records@), record_key())
    }

    /// No records.
    pub fn new() -> (t: Self)
        ensures
            t.valid(),
            t@ == Map::<Seq<char>, RecordView>::empty(),
    {
        let t = RecordTable { records: Vec::new() };
        assert(t@ =~= Map::<Seq<char>, RecordView>::empty());
        t
    }

    /// The records, in the order they were first written.
    pub closed spec fn entries(&self) -> Seq<RecordView> {
        records_view(self.records@)
    }

    /// The records, in the order they were first written.
    pub fn records(&self) -> (r: &[RecordIndex])
        ensures
            records_view(r@) == self.entries(),
    {
        self.records.as_slice()
    }

    fn position(&self, id: &str) -> (r: Option<usize>)
        requires
            self.valid(),
        ensures
            r is None <==> !self@.contains_key(id@),
            r matches Some(i) ==> i < self.records@.len() && self.records@[i as int]@.record_id
                == id@ && self@[id@] == self.records@[i as int]@,
    {
        let ghost all = records_view(self.records@);
        let mut i: usize = 0;
        while i < self.records.len()
            invariant
                all == records_view(self.records@),
                unique_keys(all, record_key()),
                i <= self.records@.len(),
                forall|k: int| 0 <= k < i ==> self.records@[k]@.record_id != id@,
            decreases self.records@.len() - i,
        {
            if same_text(self.records[i].record_id.as_str(), id) {
                proof {
                    lemma_keyed_index(all, record_key());
                    assert(all[i as int] == self.records@[i as int]@);
                }
                return Some(i);
            }
            i = i + 1;
        }
        proof {
            if self@.contains_key(id@) {
                let k = choose|k: int| 0 <= k < all.len() && record_key()(#[trigger] all[k]) == id@;
                assert(all[k] == self.records@[k]@);
            }
        }
        None
    }

    /// The record with `id`, if any.
    pub fn get(&self, id: &str) -> (r: Option<&RecordIndex>)
        requires
            self.valid(),
        ensures
            r is Some <==> self@.contains_key(id@),
            r matches Some(record) ==> record@ == self@[id@],
    {
        match self.position(id) {
            Some(i) => Some(&self.records[i]),
            None => None,
        }
    }

    /// Stores `record` under its ID, replacing any record with that ID.
    pub fn put(&mut self, record: RecordIndex)
        requires
            old(self).valid(),
        ensures
            final(self).valid(),
            final(self)@ == old(self)@.insert(record@.record_id, record@),
    {
        let ghost before = records_view(self.records@);
        let ghost v = record@;
        match self.position(record.record_id.as_str()) {
            Some(i) => {
                self.records.set(i, record);
                proof {
                    assert(records_view(self.records@) =~= before.update(i as int, v));
                    lemma_keyed_update(before, record_key(), i as int, v);
                }
            },
            None => {
                self.records.push(record);
                proof {
                    assert(records_view(self.records@) =~= before.push(v));
                    lemma_keyed_push(before, record_key(), v);
                }
            },
        }
    }

    /// Applies transaction `transaction` of the block at `height` to the records.
    pub fn apply_record(&mut self, transaction: &Transaction, height: u64)
        requires
            old(self).valid(),
        ensures
            final(self).valid(),
            final(self)@ == apply_record_spec(old(self)@, transaction@, height),
            transaction@.operation == Operation::CreateRecord || transaction@.operation
                == Operation::UpdateRecord ==> final(self)@ == old(self)@.insert(
                transaction@.record_id,
                RecordView {
                    record_id: transaction@.record_id,
                    data: transaction@.payload,
                    status: RecordStatus::Active,
                    latest_transaction_id: transaction@.id,
                    block_height: height,
                },
            ),
            transaction@.operation == Operation::VerifyRecord || transaction@.operation
                == Operation::AuditEvent ==> final(self)@ == old(self)@,
    {
        proof {
            lemma_record_operations(old(self)@, transaction@, height);
        }
        match transaction.operation {
            Operation::CreateRecord | Operation::UpdateRecord => {
                self.put(written(transaction, height));
            },
            Operation::RevokeRecord => {
                let revoked = match self.get(transaction.record_id.as_str()) {
                    Some(record) => Some(revoked(record, transaction, height)),
                    None => None,
                };
                match revoked {
                    Some(record) => self.put(record),
                    None => {},
                }
            },
            Operation::VerifyRecord | Operation::AuditEvent => {},
        }
    }
}

fn written(transaction: &Transaction, height: u64) -> (r: RecordIndex)
    ensures
        r@ == written_record(transaction@, height),
{
    RecordIndex {
        record_id: transaction.record_id.clone(),
        data: transaction.payload.deep_copy(),
        status: RecordStatus::Active,
        latest_transaction_id: transaction.id,
        block_height: height,
    }
}

fn revoked(record: &RecordIndex, transaction: &Transaction, height: u64) -> (r: RecordIndex)
    ensures
        r@ == revoked_record(record@, transaction@, height),
{
    RecordIndex {
        record_id: record.record_id.clone(),
        data: record.data.deep_copy(),
        status: RecordStatus::Revoked,
        latest_transaction_id: transaction.id,
        block_height: height,
    }
}

/// The record index of a chain, rebuilt from all its transactions.
pub fn record_models(chain: &Blockchain) -> (table: RecordTable)
    ensures
        table.valid(),
        table@ == chain_records(chain.chain()),
{
    let blocks = chain.blocks();
    let ghost all = chain.chain();
    let mut table = RecordTable::new();
    let mut i: usize = 0;
    proof {
        assert(all.subrange(0, 0) =~= Seq::<BlockView>::empty());
    }
    while i < blocks.len()
        invariant
            blocks_view(blocks@) == all,
            i <= blocks@.len(),
            table.valid(),
            table@ == chain_records(all.subrange(0, i as int)),
        decreases blocks@.len() - i,
    {
        let block = &blocks[i];
        let ghost start = table@;
        let ghost txs = transactions_view(block.transactions@);
        let mut j: usize = 0;
        proof {
            assert(txs.subrange(0, 0) =~= Seq::<TransactionView>::empty());
        }
        while j < block.transactions.len()
            invariant
                txs == transactions_view(block.transactions@),
                j <= block.transactions@.len(),
                table.valid(),
                table@ == apply_transactions(start, txs.subrange(0, j as int), block.header.index),
            decreases block.transactions@.len() - j,
        {
            table.apply_record(&block.transactions[j], block.header.index);
            proof {
                assert(txs.subrange(0, j + 1).drop_last() =~= txs.subrange(0, j as int));
                assert(txs.subrange(0, j + 1).last() == block.transactions@[j as int]@);
            }
            j = j + 1;
        }
        proof {
            assert(txs.subrange(0, txs.len() as int) =~= txs);
            assert(all.subrange(0, i + 1).drop_last() =~= all.subrange(0, i as int));
            assert(all.subrange(0, i + 1).last() == block@);
            assert(block@.transactions == txs);
        }
        i = i + 1;
    }
    proof {
        assert(all.subrange(0, all.len() as int) =~= all);
    }
    table
}

/// The records a block changes, given the stored records it revokes: a
/// record the block writes or revokes, as the block leaves it.
pub fn record_updates_for_block(block: &Block, stored: &RecordTable) -> (updates: RecordTable)
    requires
        stored.valid(),
    ensures
        updates.valid(),
        updates@ == block_updates(stored@, block@.transactions, block.header.index),
{
    let ghost txs = transactions_view(block.transactions@);
    let height = block.header.index;
    let mut updates = RecordTable::new();
    let mut j: usize = 0;
    proof {
        assert(txs.subrange(0, 0) =~= Seq::<TransactionView>::empty());
    }
    while j < block.transactions.len()
        invariant
            txs == transactions_view(block.transactions@),
            height == block.header.index,
            stored.valid(),
            j <= block.transactions@.len(),
            updates.valid(),
            updates@ == block_updates(stored@, txs.subrange(0, j as int), height),
        decreases block.transactions@.len() - j,
    {
        let transaction = &block.transactions[j];
        proof {
            assert(txs.subrange(0, j + 1).drop_last() =~= txs.subrange(0, j as int));
            assert(txs.subrange(0, j + 1).last() == transaction@);
        }
        match transaction.operation {
            Operation::CreateRecord | Operation::UpdateRecord => {
                updates.put(written(transaction, height));
            },
            Operation::RevokeRecord => {
                let next = match updates.get(transaction.record_id.as_str()) {
                    Some(record) => Some(revoked(record, transaction, height)),
                    None => match stored.get(transaction.record_id.as_str()) {
                        Some(record) => Some(revoked(record, transaction, height)),
                        None => None,
                    },
                };
                match next {
                    Some(record) => updates.put(record),
                    None => {},
                }
            },
            Operation::VerifyRecord | Operation::AuditEvent => {},
        }
        j = j + 1;
    }
    proof {
        assert(txs.subrange(0, txs.len() as int) =~= txs);
        assert(block@.transactions == txs);
    }
    updates
}

/// A transaction as stored: with the block that holds it and its position there.
#[derive(Debug)]
pub struct StoredTransaction {
    pub transaction: Transaction,
    pub block_height: u64,
    pub block_hash: String,
    pub transaction_index: usize,
}

/// The value of a stored transaction.
pub struct StoredView {
    pub transaction: TransactionView,
    pub block_height: u64,
    pub block_hash: Seq<char>,
    pub transaction_index: usize,
}

impl View for StoredTransaction {
    type V = StoredView;

    open spec fn view(&self) -> StoredView {
        StoredView {
            transaction: self.transaction@,
            block_height: self.block_height,
            block_hash: self.block_hash@,
            transaction_index: self.transaction_index,
        }
    }
}

impl Clone for StoredTransaction {
    fn clone(&self) -> (r: Self)
        ensures
            r@ == self@,
    {
        StoredTransaction {
            transaction: self.transaction.clone(),
            block_height: self.block_height,
            block_hash: self.block_hash.clone(),
            transaction_index: self.transaction_index,
        }
    }
}

impl StoredTransaction {
    /// Whether two stored transactions are equal.
    pub fn same_as(&self, other: &StoredTransaction) -> (r: bool)
        ensures
            r == (self@ == other@),
    {
        self.transaction.same_as(&other.transaction) && self.block_height == other.block_height
            && same_text(self.block_hash.as_str(), other.block_hash.as_str())
            && self.transaction_index == other.transaction_index
    }
}

/// The values of a sequence of stored transactions.
pub open spec fn stored_view(items: Seq<StoredTransaction>) -> Seq<StoredView> {
    Seq::new(items.len(), |i: int| items[i]@)
}

/// The stored form of the transactions of block `b`, in order.
pub open spec fn block_stored(b: BlockView) -> Seq<StoredView> {
    Seq::new(
        b.transactions.len(),
        |i: int|
            StoredView {
                transaction: b.transactions[i],
                block_height: b.header.index,
                block_hash: b.hash,
                transaction_index: i as usize,
            },
    )
}

/// The stored form of every transaction of a chain, block by block.
pub open spec fn chain_stored(blocks: Seq<BlockView>) -> Seq<StoredView>
    decreases blocks.len(),
{
    if blocks.len() == 0 {
        Seq::empty()
    } else {
        chain_stored(blocks.drop_last()) + block_stored(blocks.last())
    }
}

/// Appends the stored form of the transactions of `block`.
fn push_block_stored(out: &mut Vec<StoredTransaction>, block: &Block)
    ensures
        stored_view(final(out)@) == stored_view(old(out)@) + block_stored(block@),
{
    let ghost start = stored_view(out@);
    let mut i: usize = 0;
    while i < block.transactions.len()
        invariant
            i <= block.transactions@.len(),
            stored_view(out@) == start + block_stored(block@).subrange(0, i as int),
        decreases block.transactions@.len() - i,
    {
        let item = StoredTransaction {
            transaction: block.transactions[i].clone(),
            block_height: block.header.index,
            block_hash: block.hash.clone(),
            transaction_index: i,
        };
        let ghost before = out@;
        let ghost v = item@;
        out.push(item);
        proof {
            assert(block@.transactions[i as int] == block.transactions@[i as int]@);
            assert(v == block_stored(block@)[i as int]);
            assert(stored_view(out@) =~= stored_view(before).push(v));
            assert(block_stored(block@).subrange(0, i + 1) =~= block_stored(block@).subrange(
                0,
                i as int,
            ).push(v));
        }
        i = i + 1;
    }
    assert(block_stored(block@).subrange(0, block_stored(block@).len() as int) =~= block_stored(
        block@,
    ));
}

/// The stored form of the transactions of `block`.
pub fn stored_for_block(block: &Block) -> (r: Vec<StoredTransaction>)
    ensures
        stored_view(r@) == block_stored(block@),
{
    let mut out: Vec<StoredTransaction> = Vec::new();
    push_block_stored(&mut out, block);
    assert(stored_view(Seq::<StoredTransaction>::empty()) =~= Seq::<StoredView>::empty());
    assert(Seq::<StoredView>::empty() + block_stored(block@) =~= block_stored(block@));
    out
}

/// The transaction index of a chain, rebuilt from its blocks.
pub fn transaction_models(chain: &Blockchain) -> (r: Vec<StoredTransaction>)
    ensures
        stored_view(r@) == chain_stored(chain.chain()),
{
    let blocks = chain.blocks();
    let ghost all = chain.chain();
    let mut out: Vec<StoredTransaction> = Vec::new();
    let mut i: usize = 0;
    proof {
        assert(all.subrange(0, 0) =~= Seq::<BlockView>::empty());
        assert(stored_view(out@) =~= Seq::<StoredView>::empty());
    }
    while i < blocks.len()
        invariant
            blocks_view(blocks@) == all,
            i <= blocks@.len(),
            stored_view(out@) == chain_stored(all.subrange(0, i as int)),
        decreases blocks@.len() - i,
    {
        push_block_stored(&mut out, &blocks[i]);
        proof {
            assert(all.subrange(0, i + 1).drop_last() =~= all.subrange(0, i as int));
            assert(all.subrange(0, i + 1).last() == blocks@[i as int]@);
        }
        i = i + 1;
    }
    proof {
        assert(all.subrange(0, all.len() as int) =~= all);
    }
    out
}

/// What identifies a stored chain: its layout version, chain and network, and
/// its height, newest hash and genesis hash.
#[derive(Debug)]
pub struct ChainMetadata {
    pub schema_version: u16,
    pub chain_id: u128,
    pub network_id: String,
    pub current_height: u64,
    pub latest_block_hash: String,
    pub genesis_hash: String,
}

/// The value of chain metadata.
pub struct MetadataView {
    pub schema_version: u16,
    pub chain_id: u128,
    pub network_id: Seq<char>,
    pub current_height: u64,
    pub latest_block_hash: Seq<char>,
    pub genesis_hash: Seq<char>,
}

impl View for ChainMetadata {
    type V = MetadataView;

    open spec fn view(&self) -> MetadataView {
        MetadataView {
            schema_version: self.schema_version,
            chain_id: self.chain_id,
            network_id: self.network_id@,
            current_height: self.current_height,
            latest_block_hash: self.latest_block_hash@,
            genesis_hash: self.genesis_hash@,
        }
    }
}

impl Clone for ChainMetadata {
    fn clone(&self) -> (r: Self)
        ensures
            r@ == self@,
    {
        ChainMetadata {
            schema_version: self.schema_version,
            chain_id: self.chain_id,
            network_id: self.network_id.clone(),
            current_height: self.current_height,
            latest_block_hash: self.latest_block_hash.clone(),
            genesis_hash: self.genesis_hash.clone(),
        }
    }
}

/// The metadata of chain `blocks` for `chain_id` on `network_id`.
pub open spec fn chain_metadata(blocks: Seq<BlockView>, chain_id: u128, network_id: Seq<char>) -> MetadataView {
    MetadataView {
        schema_version: STORAGE_SCHEMA_VERSION,
        chain_id,
        network_id,
        current_height: blocks.last().header.index,
        latest_block_hash: blocks.last().hash,
        genesis_hash: blocks[0].hash,
    }
}

/// The outcome of checking stored metadata against the node's chain and network.
pub open spec fn metadata_check(m: MetadataView, chain_id: u128, network_id: Seq<char>) -> Result<
    (),
    ErrorSpec,
> {
    if m.schema_version != STORAGE_SCHEMA_VERSION || m.chain_id != chain_id || m.network_id
        != network_id {
        Err(ErrorSpec::MetadataMismatch)
    } else {
        Ok(())
    }
}

/// The outcome of reading stored blocks as the chain that metadata `m` describes.
pub open spec fn stored_chain_check(blocks: Seq<BlockView>, m: MetadataView) -> Result<(), ErrorSpec> {
    match chain_check(blocks) {
        Err(e) => Err(ErrorSpec::StorageCorruption { reason: error_message(e) }),
        Ok(_) => if blocks[0].hash != m.genesis_hash || blocks.last().hash != m.latest_block_hash
            || blocks.len() - 1 != m.current_height {
            Err(ErrorSpec::MetadataMismatch)
        } else {
            Ok(())
        },
    }
}

impl ChainMetadata {
    /// Whether two metadata records are equal.
    pub fn same_as(&self, other: &ChainMetadata) -> (r: bool)
        ensures
            r == (self@ == other@),
    {
        self.schema_version == other.schema_version && self.chain_id == other.chain_id
            && self.network_id == other.network_id && self.current_height == other.current_height
            && self.latest_block_hash == other.latest_block_hash && self.genesis_hash
            == other.genesis_hash
    }

    /// The metadata of `chain` for `chain_id` on `network_id`.
    pub fn for_chain(chain: &Blockchain, chain_id: u128, network_id: &str) -> (m: Self)
        requires
            chain.valid(),
        ensures
            m@ == chain_metadata(chain.chain(), chain_id, network_id@),
    {
        proof {
            chain.lemma_valid();
            lemma_valid_indices(chain.chain(), chain.chain().len() - 1);
        }
        let blocks = chain.blocks();
        ChainMetadata {
            schema_version: STORAGE_SCHEMA_VERSION,
            chain_id,
            network_id: network_id.to_owned(),
            current_height: chain.height(),
            latest_block_hash: chain.tip().hash.clone(),
            genesis_hash: blocks[0].hash.clone(),
        }
    }

    /// This metadata after committing `block`.
    pub fn after(&self, block: &Block) -> (m: Self)
        ensures
            m@ == (MetadataView {
                current_height: block.header.index,
                latest_block_hash: block@.hash,
                ..self@
            }),
    {
        ChainMetadata {
            current_height: block.header.index,
            latest_block_hash: block.hash.clone(),
            ..self.clone()
        }
    }

    /// Checks that this metadata belongs to `chain_id` on `network_id`, in
    /// the current layout.
    pub fn check(&self, chain_id: u128, network_id: &str) -> (r: Result<(), MiniChainError>)
        ensures
            outcome(r) == metadata_check(self@, chain_id, network_id@),
    {
        if self.schema_version != STORAGE_SCHEMA_VERSION || self.chain_id != chain_id
            || !same_text(self.network_id.as_str(), network_id) {
            return Err(MiniChainError::MetadataMismatch);
        }
        Ok(())
    }

    /// Checks that the block tables hold one entry per height up to the
    /// current one.
    pub fn check_block_counts(&self, block_count: u64, hash_count: u64) -> (r: Result<
        (),
        MiniChainError,
    >)
        requires
            self.current_height < u64::MAX,
        ensures
            r is Ok <==> block_count == self.current_height + 1 && hash_count == self.current_height
                + 1,
            r matches Err(e) ==> e@ == (ErrorSpec::IndexCorrupted { index: "blocks"@ }),
    {
        if block_count != self.current_height + 1 || hash_count != self.current_height + 1 {
            return Err(MiniChainError::IndexCorrupted { index: "blocks" });
        }
        Ok(())
    }

    /// Reads stored `blocks` as the chain this metadata describes.
    pub fn chain_from(&self, blocks: Vec<Block>) -> (r: Result<Blockchain, MiniChainError>)
        ensures
            match r {
                Ok(chain) => chain.valid() && chain.chain() == blocks_view(blocks@)
                    && stored_chain_check(blocks_view(blocks@), self@) is Ok,
                Err(e) => stored_chain_check(blocks_view(blocks@), self@) == Err::<(), ErrorSpec>(
                    e@,
                ),
            },
    {
        let ghost all = blocks_view(blocks@);
        let chain = match Blockchain::from_blocks(blocks) {
            Ok(chain) => chain,
            Err(e) => {
                return Err(MiniChainError::StorageCorruption { reason: e.message() });
            },
        };
        proof {
            lemma_valid_indices(all, all.len() - 1);
        }
        let first = &chain.blocks()[0];
        if !same_text(first.hash.as_str(), self.genesis_hash.as_str()) || !same_text(
            chain.tip().hash.as_str(),
            self.latest_block_hash.as_str(),
        ) || chain.height() != self.current_height {
            return Err(MiniChainError::MetadataMismatch);
        }
        Ok(chain)
    }
}

/// The outcome of committing block `b` after `previous`, given which of its
/// transaction IDs are already stored: it must be a valid successor, and
/// none of its transactions may be stored already.
pub open spec fn commit_check(previous: BlockView, b: BlockView, stored_ids: Seq<u128>) -> Result<
    (),
    ErrorSpec,
> {
    match successor_check(previous, b) {
        Err(e) => Err(e),
        Ok(_) => match unique_check(b, seq![]) {
            Err(e) => Err(e),
            Ok(_) => unique_check(b, stored_ids),
        },
    }
}

/// What committing a block writes: its stored transactions, the records it
/// changes, and the new metadata.
#[derive(Debug)]
pub struct CommitPlan {
    pub transactions: Vec<StoredTransaction>,
    pub records: RecordTable,
    pub metadata: ChainMetadata,
}

/// Plans the commit of `block` after `previous`, the newest stored block:
/// `stored_ids` are those of its transaction IDs already stored, and
/// `stored_records` the stored records it may revoke.
pub fn plan_commit(
    metadata: &ChainMetadata,
    previous: &Block,
    block: &Block,
    stored_ids: &Vec<u128>,
    stored_records: &RecordTable,
) -> (r: Result<CommitPlan, MiniChainError>)
    requires
        previous.header.index < u64::MAX,
        stored_records.valid(),
    ensures
        match r {
            Ok(plan) => {
                &&& commit_check(previous@, block@, stored_ids@) is Ok
                &&& stored_view(plan.transactions@) == block_stored(block@)
                &&& plan.records.valid()
                &&& plan.records@ == block_updates(
                    stored_records@,
                    block@.transactions,
                    block.header.index,
                )
                &&& plan.metadata@ == (MetadataView {
                    current_height: block.header.index,
                    latest_block_hash: block@.hash,
                    ..metadata@
                })
            },
            Err(e) => commit_check(previous@, block@, stored_ids@) == Err::<(), ErrorSpec>(e@),
        },
{
    Blockchain::validate_successor(previous, block)?;
    crate::chain::validate_unique_transactions(block, stored_ids)?;
    Ok(
        CommitPlan {
            transactions: stored_for_block(block),
            records: record_updates_for_block(block, stored_records),
            metadata: metadata.after(block),
        },
    )
}

proof fn lemma_first_duplicate_agrees(k1: Seq<u128>, k2: Seq<u128>, ids: Seq<u128>)
    requires
        forall|i: int| 0 <= i < ids.len() ==> (k1.contains(#[trigger] ids[i]) <==> k2.contains(ids[i])),
    ensures
        first_duplicate(k1, ids) == first_duplicate(k2, ids),
    decreases ids.len(),
{
    if ids.len() > 0 {
        let rest = ids.drop_first();
        assert forall|i: int| 0 <= i < rest.len() implies (k1.push(ids[0]).contains(
            #[trigger] rest[i],
        ) <==> k2.push(ids[0]).contains(rest[i])) by {
            assert(rest[i] == ids[i + 1]);
            if k1.push(ids[0]).contains(rest[i]) {
                let j = choose|j: int| 0 <= j < k1.push(ids[0]).len() && k1.push(ids[0])[j] == rest[i];
                if j < k1.len() {
                    assert(k1[j] == rest[i]);
                    assert(k2.contains(rest[i]));
                    let m = choose|m: int| 0 <= m < k2.len() && k2[m] == rest[i];
                    assert(k2.push(ids[0])[m] == rest[i]);
                } else {
                    assert(k2.push(ids[0])[k2.len() as int] == rest[i]);
                }
            }
            if k2.push(ids[0]).contains(rest[i]) {
                let j = choose|j: int| 0 <= j < k2.push(ids[0]).len() && k2.push(ids[0])[j] == rest[i];
                if j < k2.len() {
                    assert(k2[j] == rest[i]);
                    assert(k1.contains(rest[i]));
                    let m = choose|m: int| 0 <= m < k1.len() && k1[m] == rest[i];
                    assert(k1.push(ids[0])[m] == rest[i]);
                } else {
                    assert(k1.push(ids[0])[k1.len() as int] == rest[i]);
                }
            }
        }
        lemma_first_duplicate_agrees(k1.push(ids[0]), k2.push(ids[0]), rest);
    }
}

/// A commit that passes its checks, after the newest block of a valid chain
/// whose transaction IDs are the stored ones, extends the chain to a valid
/// chain.
pub proof fn lemma_commit_keeps_chain_valid(blocks: Seq<BlockView>, b: BlockView, stored_ids: Seq<u128>)
    requires
        chain_valid(blocks),
        forall|i: int|
            0 <= i < b.transactions.len() ==> (stored_ids.contains(#[trigger] b.transactions[i].id)
                <==> ids_before(blocks, blocks.len() as int).contains(b.transactions[i].id)),
        commit_check(blocks.last(), b, stored_ids) is Ok,
    ensures
        chain_valid(blocks.push(b)),
{
    let ids = transaction_ids(b.transactions);
    assert forall|i: int| 0 <= i < ids.len() implies (stored_ids.contains(#[trigger] ids[i])
        <==> ids_before(blocks, blocks.len() as int).contains(ids[i])) by {
        assert(ids[i] == b.transactions[i].id);
    }
    lemma_first_duplicate_agrees(stored_ids, ids_before(blocks, blocks.len() as int), ids);
    lemma_append_keeps_chain_valid(blocks, b);
}

proof fn lemma_first_duplicate_none(known: Seq<u128>, ids: Seq<u128>)
    requires
        ids.no_duplicates(),
        forall|i: int| 0 <= i < ids.len() ==> !known.contains(#[trigger] ids[i]),
    ensures
        first_duplicate(known, ids) is None,
    decreases ids.len(),
{
    if ids.len() > 0 {
        let rest = ids.drop_first();
        let more = known.push(ids[0]);
        assert forall|i: int| 0 <= i < rest.len() implies !more.contains(#[trigger] rest[i]) by {
            assert(rest[i] == ids[i + 1]);
            assert(ids[i + 1] != ids[0]);
            if more.contains(rest[i]) {
                let j = choose|j: int| 0 <= j < more.len() && more[j] == rest[i];
                if j < known.len() {
                    assert(known[j] == ids[i + 1]);
                    assert(known.contains(ids[i + 1]));
                }
            }
        }
        assert forall|a: int, b: int| 0 <= a < rest.len() && 0 <= b < rest.len() && a != b implies rest[a]
            != rest[b] by {
            assert(rest[a] == ids[a + 1] && rest[b] == ids[b + 1]);
        }
        lemma_first_duplicate_none(more, rest);
    }
}

/// A block that passes its own checks, comes right after the newest stored
/// block, links to its hash, is not older than it, and repeats no
/// transaction ID (its own or a stored one) is committed: its commit check
/// passes, so `plan_commit` stores it at its height, its transactions at
/// their positions in it, and the metadata of the longer chain.
pub proof fn lemma_next_block_commits(previous: BlockView, b: BlockView, stored_ids: Seq<u128>)
    requires
        block_check(b) is Ok,
        transaction_ids(b.transactions).no_duplicates(),
        forall|i: int|
            0 <= i < b.transactions.len() ==> !stored_ids.contains(#[trigger] b.transactions[i].id),
        b.header.index == previous.header.index + 1,
        b.header.previous_hash == previous.hash,
        !earlier(b.header.timestamp, previous.header.timestamp),
    ensures
        commit_check(previous, b, stored_ids) is Ok,
{
    let ids = transaction_ids(b.transactions);
    assert forall|i: int| 0 <= i < ids.len() implies !seq![].contains(#[trigger] ids[i]) by {}
    lemma_first_duplicate_none(seq![], ids);
    assert forall|i: int| 0 <= i < ids.len() implies !stored_ids.contains(#[trigger] ids[i]) by {
        assert(ids[i] == b.transactions[i].id);
    }
    lemma_first_duplicate_none(stored_ids, ids);
}

/// A block that passes its own checks but does not come right after the
/// newest stored block is refused for its index; one that comes right after
/// it but does not link to its hash is refused for its previous hash.
pub proof fn lemma_misplaced_block_refused(previous: BlockView, b: BlockView, stored_ids: Seq<u128>)
    requires
        block_check(b) is Ok,
        transaction_ids(b.transactions).no_duplicates(),
        previous.header.index < u64::MAX,
    ensures
        b.header.index != previous.header.index + 1 ==> commit_check(previous, b, stored_ids)
            == Err::<(), ErrorSpec>(
            ErrorSpec::InvalidBlockIndex {
                index: b.header.index,
                expected: (previous.header.index + 1) as u64,
                actual: b.header.index,
            },
        ),
        b.header.index == previous.header.index + 1 && b.header.previous_hash != previous.hash
            ==> commit_check(previous, b, stored_ids) == Err::<(), ErrorSpec>(
            ErrorSpec::InvalidPreviousHash { index: b.header.index },
        ),
{
    let ids = transaction_ids(b.transactions);
    assert forall|i: int| 0 <= i < ids.len() implies !seq![].contains(#[trigger] ids[i]) by {}
    lemma_first_duplicate_none(seq![], ids);
}

/// A new store holds the genesis chain: the metadata written for it
/// describe it, at height 0, and open for the chain and network they name.
pub proof fn lemma_fresh_store_holds_genesis(chain_id: u128, network_id: Seq<char>)
    ensures
        ({
            let blocks = seq![genesis_view()];
            let m = chain_metadata(blocks, chain_id, network_id);
            &&& chain_valid(blocks)
            &&& stored_chain_check(blocks, m) is Ok
            &&& metadata_check(m, chain_id, network_id) is Ok
            &&& m.current_height == 0
        }),
{
    let v = seq![genesis_view()];
    assert(positions_check(v, 1) is Ok);
    assert(ids_before(v, 0) =~= seq![]);
    assert(transaction_ids(genesis_view().transactions) =~= seq![]);
    assert(position_check(v, 0) is Ok);
}

/// Stored metadata open only for the chain and network they were written
/// for: for any other, opening is refused as a metadata mismatch.
pub proof fn lemma_metadata_names_its_chain(
    blocks: Seq<BlockView>,
    chain_id: u128,
    network_id: Seq<char>,
    other_chain: u128,
    other_network: Seq<char>,
)
    ensures
        metadata_check(chain_metadata(blocks, chain_id, network_id), other_chain, other_network) == if chain_id
            == other_chain && network_id == other_network {
            Ok::<(), ErrorSpec>(())
        } else {
            Err::<(), ErrorSpec>(ErrorSpec::MetadataMismatch)
        },
{
}

/// Whether an operation changes a record: writing or revoking it.
pub open spec fn touches(op: Operation) -> bool {
    writes(op) || op == Operation::RevokeRecord
}

/// The last stored transaction of `entries` that changes record `id`.
pub open spec fn last_touch(entries: Seq<StoredView>, id: Seq<char>) -> Option<StoredView>
    decreases entries.len(),
{
    if entries.len() == 0 {
        None
    } else if entries.last().transaction.record_id == id && touches(
        entries.last().transaction.operation,
    ) {
        Some(entries.last())
    } else {
        last_touch(entries.drop_last(), id)
    }
}

/// A stored transaction that creates, updates or revokes a record is that
/// record's latest change; one that creates or updates it is also its latest
/// write, which the record's data come from. Verifying and auditing are
/// neither.
pub proof fn lemma_latest_change(entries: Seq<StoredView>, s: StoredView)
    ensures
        ({
            let op = s.transaction.operation;
            let id = s.transaction.record_id;
            &&& (op == Operation::CreateRecord || op == Operation::UpdateRecord
                || op == Operation::RevokeRecord) ==> last_touch(entries.push(s), id) == Some(s)
            &&& (op == Operation::CreateRecord || op == Operation::UpdateRecord) ==> last_write(
                entries.push(s),
                id,
            ) == Some(s)
            &&& (op == Operation::VerifyRecord || op == Operation::AuditEvent) ==> last_touch(
                entries.push(s),
                id,
            ) == last_touch(entries, id) && last_write(entries.push(s), id) == last_write(entries, id)
        }),
{
    assert(entries.push(s).drop_last() =~= entries);
    assert(entries.push(s).last() == s);
}

/// The last stored transaction of `entries` that creates or updates record `id`.
pub open spec fn last_write(entries: Seq<StoredView>, id: Seq<char>) -> Option<StoredView>
    decreases entries.len(),
{
    if entries.len() == 0 {
        None
    } else if entries.last().transaction.record_id == id && writes(
        entries.last().transaction.operation,
    ) {
        Some(entries.last())
    } else {
        last_write(entries.drop_last(), id)
    }
}

/// The records after replaying stored transactions, in order, on `records`.
pub open spec fn replay(records: Map<Seq<char>, RecordView>, entries: Seq<StoredView>) -> Map<
    Seq<char>,
    RecordView,
>
    decreases entries.len(),
{
    if entries.len() == 0 {
        records
    } else {
        apply_record_spec(
            replay(records, entries.drop_last()),
            entries.last().transaction,
            entries.last().block_height,
        )
    }
}

proof fn lemma_replay_concat(records: Map<Seq<char>, RecordView>, a: Seq<StoredView>, b: Seq<StoredView>)
    ensures
        replay(records, a + b) == replay(replay(records, a), b),
    decreases b.len(),
{
    if b.len() == 0 {
        assert(a + b =~= a);
    } else {
        assert((a + b).drop_last() =~= a + b.drop_last());
        assert((a + b).last() == b.last());
        lemma_replay_concat(records, a, b.drop_last());
    }
}

proof fn lemma_block_replay(records: Map<Seq<char>, RecordView>, b: BlockView, n: int)
    requires
        0 <= n <= b.transactions.len(),
    ensures
        apply_transactions(records, b.transactions.subrange(0, n), b.header.index) == replay(
            records,
            block_stored(b).subrange(0, n),
        ),
    decreases n,
{
    if n > 0 {
        lemma_block_replay(records, b, n - 1);
        assert(b.transactions.subrange(0, n).drop_last() =~= b.transactions.subrange(0, n - 1));
        assert(block_stored(b).subrange(0, n).drop_last() =~= block_stored(b).subrange(0, n - 1));
    }
}

proof fn lemma_chain_replay(blocks: Seq<BlockView>)
    ensures
        chain_records(blocks) == replay(Map::empty(), chain_stored(blocks)),
    decreases blocks.len(),
{
    if blocks.len() > 0 {
        let b = blocks.last();
        lemma_chain_replay(blocks.drop_last());
        lemma_block_replay(chain_records(blocks.drop_last()), b, b.transactions.len() as int);
        assert(b.transactions.subrange(0, b.transactions.len() as int) =~= b.transactions);
        assert(block_stored(b).subrange(0, b.transactions.len() as int) =~= block_stored(b));
        lemma_replay_concat(Map::empty(), chain_stored(blocks.drop_last()), block_stored(b));
    }
}

proof fn lemma_replay_follows_last_changes(entries: Seq<StoredView>, id: Seq<char>)
    ensures
        ({
            let records = replay(Map::empty(), entries);
            &&& records.contains_key(id) <==> last_write(entries, id) is Some
            &&& records.contains_key(id) ==> {
                &&& last_touch(entries, id) is Some
                &&& records[id].record_id == id
                &&& records[id].data == last_write(entries, id)->0.transaction.payload
                &&& (records[id].status == RecordStatus::Revoked <==> last_touch(
                    entries,
                    id,
                )->0.transaction.operation == Operation::RevokeRecord)
                &&& records[id].latest_transaction_id == last_touch(entries, id)->0.transaction.id
                &&& records[id].block_height == last_touch(entries, id)->0.block_height
            }
        }),
    decreases entries.len(),
{
    if entries.len() > 0 {
        lemma_replay_follows_last_changes(entries.drop_last(), id);
    }
}

/// What verifying a record finds follows the chain's transactions: a record
/// exists once a transaction creates or updates it; its data are the payload
/// of the last such transaction; it is revoked exactly when the last
/// transaction that changes it revokes it; and it names that last
/// transaction and its block. (So a record that no transaction creates or
/// updates is not found.)
pub proof fn lemma_records_follow_transactions(blocks: Seq<BlockView>, id: Seq<char>)
    ensures
        ({
            let records = chain_records(blocks);
            let entries = chain_stored(blocks);
            &&& records.contains_key(id) <==> last_write(entries, id) is Some
            &&& records.contains_key(id) ==> {
                &&& last_touch(entries, id) is Some
                &&& records[id].record_id == id
                &&& records[id].data == last_write(entries, id)->0.transaction.payload
                &&& (records[id].status == RecordStatus::Revoked <==> last_touch(
                    entries,
                    id,
                )->0.transaction.operation == Operation::RevokeRecord)
                &&& records[id].latest_transaction_id == last_touch(entries, id)->0.transaction.id
                &&& records[id].block_height == last_touch(entries, id)->0.block_height
            }
        }),
{
    lemma_chain_replay(blocks);
    lemma_replay_follows_last_changes(chain_stored(blocks), id);
}

/// Whether the transaction of `s` has an inclusion proof in block `b` that
/// verifies against the block's Merkle root.
pub open spec fn included_in(s: StoredView, b: BlockView) -> bool {
    let hashes = transaction_hashes(b.transactions);
    hashes.len() > 0 && all_digests(hashes) && hashes.contains(s.transaction.hash)
        && b.header.merkle_root == tree_root_text(hashes)
}

/// The outcome of verifying record `id`, indexed as `indexed`, against chain
/// `blocks`: the record must follow from the chain and match the index.
pub open spec fn record_check(blocks: Seq<BlockView>, id: Seq<char>, indexed: RecordView) -> Result<
    StoredView,
    ErrorSpec,
> {
    let records = chain_records(blocks);
    if !records.contains_key(id) {
        Err(ErrorSpec::RecordNotFound { id })
    } else {
        match last_touch(chain_stored(blocks), id) {
            None => Err(ErrorSpec::RecordNotFound { id }),
            Some(s) => if indexed != records[id] {
                Err(ErrorSpec::IndexCorrupted { index: "records"@ })
            } else if s.block_height >= blocks.len() {
                Err(ErrorSpec::BlockNotFound { height: s.block_height })
            } else {
                Ok(s)
            },
        }
    }
}

/// The evidence for a record: its indexed state, the last transaction that
/// changed it, and whether that transaction's Merkle proof verifies.
#[derive(Debug)]
pub struct RecordVerification {
    pub record: RecordIndex,
    pub latest_transaction: StoredTransaction,
    pub cryptographically_verified: bool,
    pub merkle_proof_valid: bool,
    pub chain_valid: bool,
}

proof fn lemma_last_touch_member(entries: Seq<StoredView>, id: Seq<char>)
    ensures
        last_touch(entries, id) matches Some(s) ==> entries.contains(s) && s.transaction.record_id
            == id,
    decreases entries.len(),
{
    if entries.len() > 0 {
        lemma_last_touch_member(entries.drop_last(), id);
        if let Some(s) = last_touch(entries.drop_last(), id) {
            let k = choose|k: int| 0 <= k < entries.drop_last().len() && entries.drop_last()[k] == s;
            assert(entries[k] == s);
        }
        assert(entries[entries.len() - 1] == entries.last());
    }
}

proof fn lemma_chain_stored_member(blocks: Seq<BlockView>, s: StoredView)
    requires
        chain_stored(blocks).contains(s),
    ensures
        exists|p: int, i: int|
            0 <= p < blocks.len() && 0 <= i < blocks[p].transactions.len() && s == #[trigger] block_stored(
                blocks[p],
            )[i],
    decreases blocks.len(),
{
    let rest = blocks.drop_last();
    let k = choose|k: int| 0 <= k < chain_stored(blocks).len() && chain_stored(blocks)[k] == s;
    let n = chain_stored(rest).len();
    if k < n {
        assert(chain_stored(rest)[k] == s);
        lemma_chain_stored_member(rest, s);
        let (p, i) = choose|p: int, i: int|
            0 <= p < rest.len() && 0 <= i < rest[p].transactions.len() && s == #[trigger] block_stored(
                rest[p],
            )[i];
        assert(blocks[p] == rest[p]);
    } else {
        let p = blocks.len() - 1;
        assert(block_stored(blocks[p])[k - n] == s);
    }
}

/// In a valid chain, the last transaction that changed a record is included
/// in its block by a Merkle proof that verifies against the block's root.
pub proof fn lemma_record_evidence_verifies(blocks: Seq<BlockView>, id: Seq<char>, indexed: RecordView)
    requires
        chain_valid(blocks),
        record_check(blocks, id, indexed) is Ok,
    ensures
        record_check(blocks, id, indexed) matches Ok(s) && included_in(s, blocks[s.block_height as int]),
{
    let s = record_check(blocks, id, indexed)->Ok_0;
    lemma_last_touch_member(chain_stored(blocks), id);
    lemma_chain_stored_member(blocks, s);
    let (p, i) = choose|p: int, i: int|
        0 <= p < blocks.len() && 0 <= i < blocks[p].transactions.len() && s == #[trigger] block_stored(
            blocks[p],
        )[i];
    lemma_valid_blocks_pass(blocks, p);
    let b = blocks[p];
    let hashes = transaction_hashes(b.transactions);
    assert(hashes[i] == s.transaction.hash);
}

/// Verifies record `id`, indexed as `indexed`, against `chain`: finds the
/// record and the last transaction that changed it, checks the index, and
/// checks the transaction's Merkle proof in its block.
pub fn verify_record_in(chain: &Blockchain, id: &str, indexed: RecordIndex) -> (r: Result<
    RecordVerification,
    MiniChainError,
>)
    requires
        chain.valid(),
    ensures
        match r {
            Ok(v) => {
                &&& record_check(chain.chain(), id@, indexed@) == Ok::<StoredView, ErrorSpec>(
                    v.latest_transaction@,
                )
                &&& v.record@ == indexed@
                &&& v.merkle_proof_valid == included_in(
                    v.latest_transaction@,
                    chain.chain()[v.latest_transaction@.block_height as int],
                )
                &&& v.merkle_proof_valid
                &&& v.cryptographically_verified == v.merkle_proof_valid
                &&& v.chain_valid
            },
            Err(e) => record_check(chain.chain(), id@, indexed@) == Err::<StoredView, ErrorSpec>(
                e@,
            ),
        },
{
    let records = record_models(chain);
    let expected = match records.get(id) {
        Some(record) => record,
        None => {
            return Err(MiniChainError::RecordNotFound { id: id.to_owned() });
        },
    };
    let stored = transaction_models(chain);
    let ghost entries = stored_view(stored@);
    let mut k: usize = stored.len();
    let mut latest: Option<usize> = None;
    assert(entries.subrange(0, entries.len() as int) =~= entries);
    while k > 0
        invariant_except_break
            latest is None,
        invariant
            entries == stored_view(stored@),
            k <= stored@.len(),
            last_touch(entries, id@) == last_touch(entries.subrange(0, k as int), id@),
        ensures
            latest matches Some(j) ==> j < stored@.len() && last_touch(entries, id@) == Some(
                entries[j as int],
            ),
            latest is None ==> last_touch(entries, id@) is None,
        decreases k,
    {
        let s = &stored[k - 1];
        let ghost prefix = entries.subrange(0, k as int);
        assert(prefix.last() == s@);
        assert(prefix.drop_last() =~= entries.subrange(0, k - 1));
        if same_text(s.transaction.record_id.as_str(), id) && (match s.transaction.operation {
            Operation::CreateRecord | Operation::UpdateRecord | Operation::RevokeRecord => true,
            _ => false,
        }) {
            latest = Some(k - 1);
            break ;
        }
        k = k - 1;
        assert(k > 0 || entries.subrange(0, k as int) =~= Seq::<StoredView>::empty());
    }
    let latest = match latest {
        Some(j) => stored[j].clone(),
        None => {
            return Err(MiniChainError::RecordNotFound { id: id.to_owned() });
        },
    };
    if !indexed.same_as(expected) {
        return Err(MiniChainError::IndexCorrupted { index: "records" });
    }
    let block = match chain.block_at(latest.block_height) {
        Some(block) => block,
        None => {
            return Err(MiniChainError::BlockNotFound { height: latest.block_height });
        },
    };
    let hashes = hashes_of(&block.transactions);
    let merkle_proof_valid = proves_inclusion(
        hashes.as_slice(),
        latest.transaction.hash.as_str(),
        block.header.merkle_root.as_str(),
    );
    proof {
        chain.lemma_valid();
        lemma_record_evidence_verifies(chain.chain(), id@, indexed@);
    }
    Ok(
        RecordVerification {
            record: indexed,
            latest_transaction: latest,
            cryptographically_verified: merkle_proof_valid,
            merkle_proof_valid,
            chain_valid: true,
        },
    )
}

/// Checks the stored transaction index against the index rebuilt from the
/// chain: the table holds `table_len` entries, and `found[i]` is the stored
/// entry under the ID of `expected[i]`, if any.
pub fn check_transaction_index(
    expected: &Vec<StoredTransaction>,
    table_len: u64,
    found: &Vec<Option<StoredTransaction>>,
) -> (r: Result<(), MiniChainError>)
    requires
        found@.len() == expected@.len(),
    ensures
        r is Ok <==> table_len == expected@.len() && forall|i: int|
            0 <= i < expected@.len() ==> (#[trigger] found@[i] matches Some(f) && f@
                == expected@[i]@),
        r matches Err(e) ==> e@ == (ErrorSpec::IndexCorrupted { index: "transactions"@ }),
{
    if table_len != expected.len() as u64 {
        return Err(MiniChainError::IndexCorrupted { index: "transactions" });
    }
    let mut i: usize = 0;
    while i < expected.len()
        invariant
            found@.len() == expected@.len(),
            i <= expected@.len(),
            forall|k: int|
                0 <= k < i ==> (#[trigger] found@[k] matches Some(f) && f@ == expected@[k]@),
        decreases expected@.len() - i,
    {
        let same = match &found[i] {
            Some(f) => f.same_as(&expected[i]),
            None => false,
        };
        if !same {
            return Err(MiniChainError::IndexCorrupted { index: "transactions" });
        }
        i = i + 1;
    }
    Ok(())
}

/// Checks the stored record index against the index rebuilt from the chain:
/// the table holds `table_len` entries, and `found[i]` is the stored record
/// under the ID of the `i`th rebuilt record, if any.
pub fn check_record_index(expected: &RecordTable, table_len: u64, found: &Vec<Option<RecordIndex>>) -> (r:
    Result<(), MiniChainError>)
    requires
        expected.valid(),
        found@.len() == expected.entries().len(),
    ensures
        r is Ok <==> table_len == expected.entries().len() && forall|i: int|
            0 <= i < found@.len() ==> (#[trigger] found@[i] matches Some(f) && f@
                == expected.entries()[i]),
        r matches Err(e) ==> e@ == (ErrorSpec::IndexCorrupted { index: "records"@ }),
{
    let records = expected.records();
    if table_len != records.len() as u64 {
        return Err(MiniChainError::IndexCorrupted { index: "records" });
    }
    let mut i: usize = 0;
    while i < records.len()
        invariant
            records_view(records@) == expected.entries(),
            found@.len() == records@.len(),
            i <= records@.len(),
            forall|k: int|
                0 <= k < i ==> (#[trigger] found@[k] matches Some(f) && f@ == expected.entries()[k]),
        decreases records@.len() - i,
    {
        let same = match &found[i] {
            Some(f) => f.same_as(&records[i]),
            None => false,
        };
        if !same {
            return Err(MiniChainError::IndexCorrupted { index: "records" });
        }
        i = i + 1;
    }
    Ok(())
}

/// What a snapshot holds: the chain's blocks and what identifies them.
#[derive(Debug)]
pub struct SnapshotPayload {
    pub version: u16,
    pub chain_id: u128,
    pub height: u64,
    pub latest_block_hash: String,
    pub genesis_hash: String,
    pub created_at: Timestamp,
    pub blocks: Vec<Block>,
}

/// A saved copy of the chain, with the hash of its serialized payload.
#[derive(Debug)]
pub struct Snapshot {
    pub id: u128,
    pub integrity_hash: String,
    pub payload: SnapshotPayload,
}

/// The integrity hash of a serialized payload: its SHA-256 digest, as hexadecimal text.
pub open spec fn payload_hash(bytes: Seq<u8>) -> Seq<char> {
    hex_text(sha256_digest(bytes))
}

/// The outcome of checking snapshot `s`, whose payload serializes to
/// `bytes`, against the stored chain's metadata `m`: intact, in the current
/// layout, of the same chain, and holding a valid chain that matches its own
/// height and newest hash.
pub open spec fn snapshot_check(s: &Snapshot, bytes: Seq<u8>, m: MetadataView) -> Result<(), ErrorSpec> {
    let p = &s.payload;
    let blocks = blocks_view(p.blocks@);
    if s.integrity_hash@ != payload_hash(bytes) || p.version != STORAGE_SCHEMA_VERSION {
        Err(ErrorSpec::SnapshotInvalid { id: s.id })
    } else if p.chain_id != m.chain_id || p.genesis_hash@ != m.genesis_hash {
        Err(ErrorSpec::SnapshotIncompatible)
    } else if !chain_valid(blocks) {
        Err(ErrorSpec::SnapshotInvalid { id: s.id })
    } else if blocks.len() - 1 != p.height || blocks.last().hash != p.latest_block_hash@ {
        Err(ErrorSpec::SnapshotInvalid { id: s.id })
    } else {
        Ok(())
    }
}

/// A snapshot that checks out is what it says it is: its integrity hash is
/// the digest of its payload bytes, its layout is the current one, it belongs to the stored chain (same chain
/// ID and genesis block), its blocks form a valid chain, and the height and
/// newest hash its payload declares are the index and hash of the last of
/// those blocks.
pub proof fn lemma_accepted_snapshot_matches_its_blocks(s: &Snapshot, bytes: Seq<u8>, m: MetadataView)
    requires
        snapshot_check(s, bytes, m) is Ok,
    ensures
        ({
            let blocks = blocks_view(s.payload.blocks@);
            &&& s.integrity_hash@ == hex_text(sha256_digest(bytes))
            &&& s.payload.version == STORAGE_SCHEMA_VERSION
            &&& s.payload.chain_id == m.chain_id
            &&& s.payload.genesis_hash@ == m.genesis_hash
            &&& chain_valid(blocks)
            &&& blocks.len() > 0
            &&& blocks.last().header.index == s.payload.height
            &&& blocks.last().hash == s.payload.latest_block_hash@
        }),
{
    let blocks = blocks_view(s.payload.blocks@);
    lemma_valid_indices(blocks, blocks.len() - 1);
}

/// The hexadecimal SHA-256 digest of a serialized snapshot payload.
pub fn payload_digest(bytes: &[u8]) -> (hash: String)
    ensures
        hash@ == payload_hash(bytes@),
{
    encode_hex(&sha256(bytes))
}

impl SnapshotPayload {
    /// The payload that saves `chain`, which `metadata` describes, taken at `created_at`.
    pub fn of_chain(chain: &Blockchain, metadata: &ChainMetadata, created_at: Timestamp) -> (p: Self)
        ensures
            p.version == STORAGE_SCHEMA_VERSION,
            p.chain_id == metadata.chain_id,
            p.height == metadata.current_height,
            p.latest_block_hash@ == metadata.latest_block_hash@,
            p.genesis_hash@ == metadata.genesis_hash@,
            p.created_at == created_at,
            blocks_view(p.blocks@) == chain.chain(),
    {
        SnapshotPayload {
            version: STORAGE_SCHEMA_VERSION,
            chain_id: metadata.chain_id,
            height: metadata.current_height,
            latest_block_hash: metadata.latest_block_hash.clone(),
            genesis_hash: metadata.genesis_hash.clone(),
            created_at,
            blocks: chain.copy_blocks(),
        }
    }
}

/// A snapshot taken of a stored chain passes its check: if the metadata
/// describes the saved blocks, the payload was made from that metadata, and
/// the integrity hash is that of the serialized payload, then checking the
/// snapshot against the same metadata and bytes succeeds.
pub proof fn lemma_snapshot_of_stored_chain_checks(s: Snapshot, bytes: Seq<u8>, m: MetadataView)
    requires
        stored_chain_check(blocks_view(s.payload.blocks@), m) is Ok,
        s.payload.version == STORAGE_SCHEMA_VERSION,
        s.payload.chain_id == m.chain_id,
        s.payload.height == m.current_height,
        s.payload.latest_block_hash@ == m.latest_block_hash,
        s.payload.genesis_hash@ == m.genesis_hash,
        s.integrity_hash@ == payload_hash(bytes),
    ensures
        snapshot_check(&s, bytes, m) is Ok,
{
}

impl Snapshot {
    /// A snapshot of `payload`, which serializes to `payload_bytes`, under a fresh random ID.
    pub fn new(payload: SnapshotPayload, payload_bytes: &[u8]) -> (s: Self)
        ensures
            s.payload == payload,
            s.integrity_hash@ == payload_hash(payload_bytes@),
    {
        Snapshot { id: random_id(), integrity_hash: payload_digest(payload_bytes), payload }
    }

    /// The height of the saved chain.
    pub fn height(&self) -> (h: u64)
        ensures
            h == self.payload.height,
    {
        self.payload.height
    }

    /// The chain the snapshot belongs to.
    pub fn chain_id(&self) -> (id: u128)
        ensures
            id == self.payload.chain_id,
    {
        self.payload.chain_id
    }

    /// When the snapshot was taken.
    pub fn created_at(&self) -> (t: Timestamp)
        ensures
            t == self.payload.created_at,
    {
        self.payload.created_at
    }

    /// The hash of the newest saved block.
    pub fn latest_block_hash(&self) -> (hash: &str)
        ensures
            hash@ == self.payload.latest_block_hash@,
    {
        self.payload.latest_block_hash.as_str()
    }

    /// Whether the payload, serialized as `payload_bytes`, still has the
    /// integrity hash it was saved with.
    pub fn verify_integrity(&self, payload_bytes: &[u8]) -> (r: bool)
        ensures
            r == (self.integrity_hash@ == payload_hash(payload_bytes@)),
    {
        let hash = payload_digest(payload_bytes);
        same_text(hash.as_str(), self.integrity_hash.as_str())
    }

    /// Checks this snapshot, whose payload serializes to `payload_bytes`,
    /// against the stored chain's metadata.
    pub fn check(&self, payload_bytes: &[u8], metadata: &ChainMetadata) -> (r: Result<(), MiniChainError>)
        ensures
            outcome(r) == snapshot_check(self, payload_bytes@, metadata@),
            r is Ok ==> self.payload.blocks@.len() > 0 && self.payload.blocks@.last().header.index
                == self.payload.height && self.payload.blocks@.last().hash@
                == self.payload.latest_block_hash@,
    {
        proof {
            if snapshot_check(self, payload_bytes@, metadata@) is Ok {
                lemma_accepted_snapshot_matches_its_blocks(self, payload_bytes@, metadata@);
            }
            if self.payload.blocks@.len() > 0 {
                assert(blocks_view(self.payload.blocks@).last() == self.payload.blocks@.last()@);
            }
        }
        let p = &self.payload;
        if !self.verify_integrity(payload_bytes) || p.version != STORAGE_SCHEMA_VERSION {
            return Err(MiniChainError::SnapshotInvalid { id: self.id });
        }
        if p.chain_id != metadata.chain_id || !same_text(
            p.genesis_hash.as_str(),
            metadata.genesis_hash.as_str(),
        ) {
            return Err(MiniChainError::SnapshotIncompatible);
        }
        let chain = match Blockchain::from_blocks(copy_blocks(&p.blocks)) {
            Ok(chain) => chain,
            Err(_) => {
                return Err(MiniChainError::SnapshotInvalid { id: self.id });
            },
        };
        proof {
            chain.lemma_valid();
        }
        if chain.height() != p.height || !same_text(
            chain.tip().hash.as_str(),
            p.latest_block_hash.as_str(),
        ) {
            return Err(MiniChainError::SnapshotInvalid { id: self.id });
        }
        Ok(())
    }
}

/// Copies of blocks.
pub fn copy_blocks(blocks: &Vec<Block>) -> (r: Vec<Block>)
    ensures
        blocks_view(r@) == blocks_view(blocks@),
{
    let mut out: Vec<Block> = Vec::new();
    let mut i: usize = 0;
    while i < blocks.len()
        invariant
            i <= blocks@.len(),
            blocks_view(out@) == blocks_view(blocks@).subrange(0, i as int),
        decreases blocks@.len() - i,
    {
        let ghost before = out@;
        let b = blocks[i].clone();
        let ghost v = b@;
        out.push(b);
        assert(blocks_view(out@) =~= blocks_view(before).push(v));
        assert(blocks_view(out@) =~= blocks_view(blocks@).subrange(0, i + 1));
        i = i + 1;
    }
    assert(blocks_view(blocks@).subrange(0, blocks@.len() as int) =~= blocks_view(blocks@));
    out
}

/// Checks that restoring a snapshot may replace the stored chain: only an
/// empty chain (genesis only) is replaced unless `force` is set.
pub fn check_restore(current_height: u64, force: bool) -> (r: Result<(), MiniChainError>)
    ensures
        r is Ok <==> current_height == 0 || force,
        r matches Err(e) ==> e == MiniChainError::RestoreWouldOverwrite,
{
    if current_height > 0 && !force {
        return Err(MiniChainError::RestoreWouldOverwrite);
    }
    Ok(())
}

/// Whether a newly opened store must be given the genesis chain: when it
/// has neither metadata nor blocks. Blocks without metadata are corruption.
pub fn needs_genesis(metadata_missing: bool, blocks_empty: bool) -> (r: Result<bool, MiniChainError>)
    ensures
        match r {
            Ok(b) => b == (metadata_missing && blocks_empty) && !(metadata_missing && !blocks_empty),
            Err(e) => metadata_missing && !blocks_empty && e@ == (ErrorSpec::StorageCorruption {
                reason: "metadata is missing"@,
            }),
        },
{
    if !metadata_missing {
        Ok(false)
    } else if !blocks_empty {
        Err(MiniChainError::StorageCorruption { reason: "metadata is missing".to_owned() })
    } else {
        Ok(true)
    }
}

/// Counts and sizes of what a node stores.
#[derive(Debug, PartialEq, Eq)]
pub struct StorageStats {
    pub blocks: u64,
    pub transactions: u64,
    pub records: u64,
    pub current_height: u64,
    pub latest_block_hash: String,
    pub database_bytes: Option<u64>,
}

/// Whether stored transaction `a` comes no later than `b` in the chain: by
/// block height, then by position in the block.
pub open spec fn stored_no_later(a: StoredView, b: StoredView) -> bool {
    a.block_height < b.block_height || (a.block_height == b.block_height && a.transaction_index
        <= b.transaction_index)
}

/// Whether stored transactions are in chain order.
pub open spec fn in_chain_order(items: Seq<StoredView>) -> bool {
    forall|i: int, j: int|
        0 <= i < j < items.len() ==> stored_no_later(#[trigger] items[i], #[trigger] items[j])
}

/// Stored transactions in chain order: by block height, then by position in
/// the block.
pub fn sort_stored(items: Vec<StoredTransaction>) -> (sorted: Vec<StoredTransaction>)
    ensures
        in_chain_order(stored_view(sorted@)),
        stored_view(sorted@).to_multiset() == stored_view(items@).to_multiset(),
{
    broadcast use vstd::seq_lib::group_to_multiset_ensures, vstd::multiset::group_multiset_axioms;

    let ghost all = stored_view(items@).to_multiset();
    let mut rest = items;
    let mut out: Vec<StoredTransaction> = Vec::new();
    proof {
        assert(stored_view(out@) =~= Seq::<StoredView>::empty());
        assert(Seq::<StoredView>::empty().to_multiset() =~= vstd::multiset::Multiset::<StoredView>::empty())
            by {
            assert(Seq::<StoredView>::empty().to_multiset().len() == 0);
        }
        assert(vstd::multiset::Multiset::<StoredView>::empty().add(stored_view(rest@).to_multiset()) =~= all);
    }
    while rest.len() > 0
        invariant
            in_chain_order(stored_view(out@)),
            stored_view(out@).to_multiset().add(stored_view(rest@).to_multiset()) == all,
        decreases rest@.len(),
    {
        let ghost before_rest = rest@;
        let item = rest.pop().unwrap();
        proof {
            assert(stored_view(before_rest) =~= stored_view(rest@).push(item@));
        }
        let mut j: usize = 0;
        while j < out.len() && (out[j].block_height < item.block_height || (out[j].block_height
            == item.block_height && out[j].transaction_index <= item.transaction_index))
            invariant
                j <= out@.len(),
                forall|k: int| 0 <= k < j ==> stored_no_later(#[trigger] stored_view(out@)[k], item@),
            decreases out@.len() - j,
        {
            j = j + 1;
        }
        let ghost before = stored_view(out@);
        let ghost v = item@;
        out.insert(j, item);
        proof {
            let after = stored_view(out@);
            assert(after =~= before.insert(j as int, v));
            vstd::seq_lib::to_multiset_insert(before, j as int, v);
            vstd::seq_lib::to_multiset_build(stored_view(rest@), v);
            assert(after.to_multiset() == before.to_multiset().insert(v));
            assert(stored_view(before_rest).to_multiset() == stored_view(rest@).to_multiset().insert(v));
            assert(after.to_multiset().add(stored_view(rest@).to_multiset()) =~= before.to_multiset().add(
                stored_view(before_rest).to_multiset(),
            ));
            assert forall|a: int, b: int| 0 <= a < b < after.len() implies stored_no_later(
                #[trigger] after[a],
                #[trigger] after[b],
            ) by {
                if b < j {
                    assert(after[a] == before[a] && after[b] == before[b]);
                } else if b == j {
                    assert(after[a] == before[a]);
                } else if a < j {
                    assert(after[a] == before[a] && after[b] == before[b - 1]);
                    assert(!stored_no_later(before[j as int], v));
                    if j as int != b - 1 {
                        assert(stored_no_later(before[j as int], before[b - 1]));
                    }
                } else if a == j {
                    assert(after[b] == before[b - 1]);
                    assert(!stored_no_later(before[j as int], v));
                    if j as int != b - 1 {
                        assert(stored_no_later(before[j as int], before[b - 1]));
                    }
                } else {
                    assert(after[a] == before[a - 1] && after[b] == before[b - 1]);
                }
            }
        }
    }
    proof {
        assert(stored_view(rest@) =~= Seq::<StoredView>::empty());
        assert(stored_view(out@).to_multiset().add(vstd::multiset::Multiset::<StoredView>::empty()) =~= stored_view(
            out@,
        ).to_multiset());
    }
    out
}

/// Whether snapshot `a` was made no later than `b`.
pub open spec fn made_no_later(a: Snapshot, b: Snapshot) -> bool {
    let x = a.payload.created_at;
    let y = b.payload.created_at;
    x.seconds < y.seconds || (x.seconds == y.seconds && x.nanos <= y.nanos)
}

/// Whether snapshots are in the order they were made.
pub open spec fn in_creation_order(items: Seq<Snapshot>) -> bool {
    forall|i: int, j: int| 0 <= i < j < items.len() ==> made_no_later(#[trigger] items[i], #[trigger] items[j])
}

/// Whether a snapshot was made at instant `t`.
pub open spec fn made_at(t: Timestamp) -> spec_fn(Snapshot) -> bool {
    |s: Snapshot| s.payload.created_at == t
}

/// Keeping only the items a predicate holds of, in a sequence none of whose
/// items it holds of, leaves nothing.
proof fn lemma_filter_none<A>(items: Seq<A>, pred: spec_fn(A) -> bool)
    requires
        forall|k: int| 0 <= k < items.len() ==> !pred(#[trigger] items[k]),
    ensures
        items.filter(pred) == Seq::<A>::empty(),
    decreases items.len(),
{
    reveal(Seq::filter);
    if items.len() > 0 {
        lemma_filter_none(items.drop_last(), pred);
    }
}

/// Inserting `v` at `j`, where no later snapshot was made at the same
/// instant, puts `v` last among the snapshots made at its instant and changes
/// no other instant's snapshots.
proof fn lemma_insert_keeps_instants(before: Seq<Snapshot>, j: int, v: Snapshot, t: Timestamp)
    requires
        0 <= j <= before.len(),
        forall|k: int| j <= k < before.len() ==> (#[trigger] before[k]).payload.created_at
            != v.payload.created_at,
    ensures
        before.insert(j, v).filter(made_at(t)) == if v.payload.created_at == t {
            before.filter(made_at(t)).push(v)
        } else {
            before.filter(made_at(t))
        },
{
    let head = before.subrange(0, j);
    let tail = before.subrange(j, before.len() as int);
    assert(before =~= head + tail);
    assert(before.insert(j, v) =~= (head + seq![v]) + tail);
    Seq::filter_distributes_over_add(head + seq![v], tail, made_at(t));
    Seq::filter_distributes_over_add(head, tail, made_at(t));
    head.lemma_filter_push(v, made_at(t));
    assert(head + seq![v] =~= head.push(v));
    if v.payload.created_at == t {
        lemma_filter_none(tail, made_at(t));
        assert(head.filter(made_at(t)).push(v) + Seq::<Snapshot>::empty() =~= head.filter(
            made_at(t),
        ).push(v));
        assert(head.filter(made_at(t)) + Seq::<Snapshot>::empty() =~= head.filter(made_at(t)));
    }
}

/// Snapshots in the order they were made; snapshots made at the same instant
/// keep their order.
pub fn snapshots_in_order(items: Vec<Snapshot>) -> (sorted: Vec<Snapshot>)
    ensures
        in_creation_order(sorted@),
        sorted@.to_multiset() == items@.to_multiset(),
        forall|t: Timestamp| #[trigger] sorted@.filter(made_at(t)) == items@.filter(made_at(t)),
{
    broadcast use vstd::seq_lib::group_to_multiset_ensures, vstd::multiset::group_multiset_axioms;

    let ghost all = items@.to_multiset();
    let ghost given = items@;
    let ghost mut i: int = 0;
    let mut rest = items;
    let mut out: Vec<Snapshot> = Vec::new();
    proof {
        assert(out@.to_multiset() =~= vstd::multiset::Multiset::<Snapshot>::empty()) by {
            assert(out@.to_multiset().len() == 0);
        }
        assert(vstd::multiset::Multiset::<Snapshot>::empty().add(rest@.to_multiset()) =~= all);
        assert(given.subrange(0, 0) =~= out@);
        assert(rest@ =~= given.subrange(0, given.len() as int));
    }
    while rest.len() > 0
        invariant
            0 <= i <= given.len(),
            rest@ == given.subrange(i, given.len() as int),
            in_creation_order(out@),
            out@.to_multiset().add(rest@.to_multiset()) == all,
            forall|t: Timestamp| #[trigger] out@.filter(made_at(t)) == given.subrange(0, i).filter(
                made_at(t),
            ),
        decreases rest@.len(),
    {
        let ghost before_rest = rest@;
        let item = rest.remove(0);
        let ghost v = item;
        proof {
            assert(v == given[i]);
            assert(before_rest =~= rest@.insert(0, v));
            vstd::seq_lib::to_multiset_insert(rest@, 0, v);
        }
        let made = item.payload.created_at;
        let mut j: usize = 0;
        while j < out.len() && (out[j].payload.created_at.seconds < made.seconds || (
        out[j].payload.created_at.seconds == made.seconds && out[j].payload.created_at.nanos
            <= made.nanos))
            invariant
                j <= out@.len(),
                made == v.payload.created_at,
                forall|k: int| 0 <= k < j ==> made_no_later(#[trigger] out@[k], v),
            decreases out@.len() - j,
        {
            j = j + 1;
        }
        let ghost before = out@;
        out.insert(j, item);
        proof {
            let after = out@;
            assert(after =~= before.insert(j as int, v));
            vstd::seq_lib::to_multiset_insert(before, j as int, v);
            assert(after.to_multiset().add(rest@.to_multiset()) =~= before.to_multiset().add(
                before_rest.to_multiset(),
            ));
            assert forall|a: int, b: int| 0 <= a < b < after.len() implies made_no_later(
                #[trigger] after[a],
                #[trigger] after[b],
            ) by {
                if b < j {
                    assert(after[a] == before[a] && after[b] == before[b]);
                } else if b == j {
                    assert(after[a] == before[a]);
                } else if a < j {
                    assert(after[a] == before[a] && after[b] == before[b - 1]);
                    assert(!made_no_later(before[j as int], v));
                    if j as int != b - 1 {
                        assert(made_no_later(before[j as int], before[b - 1]));
                    }
                } else if a == j {
                    assert(after[b] == before[b - 1]);
                    assert(!made_no_later(before[j as int], v));
                    if j as int != b - 1 {
                        assert(made_no_later(before[j as int], before[b - 1]));
                    }
                } else {
                    assert(after[a] == before[a - 1] && after[b] == before[b - 1]);
                }
            }
            assert forall|k: int| j <= k < before.len() implies (#[trigger] before[k]).payload.created_at
                != v.payload.created_at by {
                assert(!made_no_later(before[j as int], v));
                if k != j {
                    assert(made_no_later(before[j as int], before[k]));
                }
            }
            assert(given.subrange(0, i + 1) =~= given.subrange(0, i).push(v));
            assert forall|t: Timestamp| #[trigger] after.filter(made_at(t)) == given.subrange(
                0,
                i + 1,
            ).filter(made_at(t)) by {
                lemma_insert_keeps_instants(before, j as int, v, t);
                given.subrange(0, i).lemma_filter_push(v, made_at(t));
            }
            assert(rest@ =~= given.subrange(i + 1, given.len() as int));
            i = i + 1;
        }
    }
    proof {
        assert(rest@ =~= Seq::<Snapshot>::empty());
        assert(out@.to_multiset().add(vstd::multiset::Multiset::<Snapshot>::empty()) =~= out@.to_multiset());
        assert(given.subrange(0, i) =~= given);
    }
    out
}

/// Whether a stored transaction concerns record `id`.
pub open spec fn concerns(id: Seq<char>) -> spec_fn(StoredView) -> bool {
    |s: StoredView| s.transaction.record_id == id
}

/// The stored transactions that concern record `id`, in their order.
pub fn history_of(items: &Vec<StoredTransaction>, id: &str) -> (history: Vec<StoredTransaction>)
    ensures
        stored_view(history@) == stored_view(items@).filter(concerns(id@)),
{
    let ghost keep = concerns(id@);
    let ghost all = stored_view(items@);
    let mut out: Vec<StoredTransaction> = Vec::new();
    let mut i: usize = 0;
    proof {
        assert(all.subrange(0, 0) =~= Seq::<StoredView>::empty());
        assert(stored_view(out@) =~= Seq::<StoredView>::empty());
        reveal(Seq::filter);
    }
    while i < items.len()
        invariant
            all == stored_view(items@),
            keep == concerns(id@),
            i <= items@.len(),
            stored_view(out@) == all.subrange(0, i as int).filter(keep),
        decreases items@.len() - i,
    {
        let ghost before = out@;
        proof {
            assert(all.subrange(0, i + 1) =~= all.subrange(0, i as int).push(all[i as int]));
            all.subrange(0, i as int).lemma_filter_push(all[i as int], keep);
        }
        if same_text(items[i].transaction.record_id.as_str(), id) {
            out.push(items[i].clone());
            assert(stored_view(out@) =~= stored_view(before).push(all[i as int]));
        }
        i = i + 1;
    }
    assert(all.subrange(0, all.len() as int) =~= all);
    out
}

} // verus!
