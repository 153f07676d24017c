//! The pool of valid, unexpired transactions waiting for a block.
use vstd::prelude::*;

use crate::block::transactions_view;
use crate::error::{ErrorSpec, MiniChainError, outcome};
use crate::keyed::{
    keyed_map, lemma_keyed_index, lemma_keyed_len, lemma_keyed_push, lemma_keyed_retain_step,
    lemma_unique_prefix, retained, unique_keys,
};
use crate::transaction::{
    MAX_TIME_SECONDS, MIN_TIME_SECONDS, Timestamp, Transaction, TransactionView, current_time,
    transaction_check,
};

verus! {

/// The longest span a signed time delta holds: `i64::MAX` milliseconds, as
/// whole seconds and the nanoseconds beyond them.
pub const MAX_DELTA_SECONDS: u64 = 9_223_372_036_854_775;

/// The nanoseconds of the longest time delta beyond its whole seconds.
pub const MAX_DELTA_NANOS: u32 = 807_000_000;

/// A span of time: whole seconds and the nanoseconds beyond them.
#[derive(Clone, Copy, Debug, PartialEq, Eq, Structural)]
pub struct Duration {
    pub seconds: u64,
    pub nanos: u32,
}

/// Whether a span converts to a signed time delta.
pub open spec fn delta_fits(age: Duration) -> bool {
    age.seconds < MAX_DELTA_SECONDS || (age.seconds == MAX_DELTA_SECONDS && age.nanos
        <= MAX_DELTA_NANOS)
}

/// The instant `age` before `now`, as seconds and nanoseconds, as a UTC
/// date-time computes it. Nanoseconds of a second from 10^9 up mark a leap
/// second; stepping back a whole second or more from one starts from the
/// second that follows it, and stepping back less stays within it.
pub open spec fn cutoff(now: Timestamp, age: Duration) -> (int, int) {
    let (seconds, nanos) = if now.nanos >= 1_000_000_000 && age.seconds > 0 {
        (now.seconds + 1, now.nanos - 1_000_000_000)
    } else {
        (now.seconds as int, now.nanos as int)
    };
    if nanos >= age.nanos {
        (seconds - age.seconds, nanos - age.nanos)
    } else {
        (seconds - age.seconds - 1, nanos + 1_000_000_000 - age.nanos)
    }
}

/// Whether the instant `age` before `now` is one a date-time can hold, when
/// `age` converts to a delta at all.
pub open spec fn cutoff_in_range(now: Timestamp, age: Duration) -> bool {
    delta_fits(age) ==> MIN_TIME_SECONDS <= cutoff(now, age).0 <= MAX_TIME_SECONDS
}

/// Whether a transaction made at `made` has expired at `now`: it is older than
/// `age`. A span too long for a time delta never expires anything.
pub open spec fn expired(made: Timestamp, now: Timestamp, age: Duration) -> bool {
    let c = cutoff(now, age);
    delta_fits(age) && (made.seconds < c.0 || (made.seconds == c.0 && made.nanos < c.1))
}

/// The key of a transaction in the pool: its ID.
pub open spec fn tx_key() -> spec_fn(TransactionView) -> u128 {
    |t: TransactionView| t.id
}

/// Whether a pooled transaction is still fresh at `now`.
pub open spec fn fresh(now: Timestamp, age: Duration) -> spec_fn(TransactionView) -> bool {
    |t: TransactionView| !expired(t.timestamp, now, age)
}

/// Whether a pooled transaction is not among `ids`.
pub open spec fn unlisted(ids: Seq<u128>) -> spec_fn(TransactionView) -> bool {
    |t: TransactionView| !ids.contains(t.id)
}

/// The outcome of adding transaction `t` at `now` to a pool holding `pool`.
pub open spec fn insert_check(
    pool: Map<u128, TransactionView>,
    capacity: usize,
    age: Duration,
    t: TransactionView,
    now: Timestamp,
) -> Result<(), ErrorSpec> {
    if transaction_check(t) is Err {
        transaction_check(t)
    } else if expired(t.timestamp, now, age) {
        Err(ErrorSpec::ExpiredTransaction { id: t.id })
    } else if pool.contains_key(t.id) {
        Err(ErrorSpec::DuplicateMempoolTransaction { id: t.id })
    } else if pool.len() >= capacity {
        Err(ErrorSpec::MempoolFull { capacity })
    } else {
        Ok(())
    }
}

/// Whether transaction `made` is older than `max_age` at `now`.
pub fn is_expired(made: Timestamp, now: Timestamp, max_age: Duration) -> (r: bool)
    requires
        now.nanos < 2_000_000_000,
        max_age.nanos < 1_000_000_000,
        cutoff_in_range(now, max_age),
    ensures
        r == expired(made, now, max_age),
{
    if !(max_age.seconds < MAX_DELTA_SECONDS || (max_age.seconds == MAX_DELTA_SECONDS
        && max_age.nanos <= MAX_DELTA_NANOS)) {
        return false;
    }
    let mut now_seconds: i128 = now.seconds as i128;
    let mut now_nanos: i64 = now.nanos as i64;
    if now_nanos >= 1_000_000_000 && max_age.seconds > 0 {
        now_seconds = now_seconds + 1;
        now_nanos = now_nanos - 1_000_000_000;
    }
    let mut seconds: i128 = now_seconds - max_age.seconds as i128;
    let mut nanos: i64 = now_nanos - max_age.nanos as i64;
    if nanos < 0 {
        seconds = seconds - 1;
        nanos = nanos + 1_000_000_000;
    }
    (made.seconds as i128) < seconds || ((made.seconds as i128) == seconds && (made.nanos as i64)
        < nanos)
}

/// The transactions waiting for a block, each under its ID, with a capacity
/// and a maximum age.
#[derive(Debug)]
pub struct Mempool {
    transactions: Vec<Transaction>,
    capacity: usize,
    max_age: Duration,
}

impl View for Mempool {
    type V = Map<u128, TransactionView>;

    closed spec fn view(&self) -> Map<u128, TransactionView> {
        keyed_map(transactions_view(self.transactions@), tx_key())
    }
}

impl Mempool {
    /// The most transactions the pool holds.
    pub closed spec fn capacity(&self) -> usize {
        self.capacity
    }

    /// The age after which a transaction is refused or dropped.
    pub closed spec fn max_age(&self) -> Duration {
        self.max_age
    }

    /// Well-formedness: one transaction per ID, a proper span.
    pub closed spec fn valid(&self) -> bool {
        &&& unique_keys(transactions_view(self.transactions@), tx_key())
        &&& self.max_age.nanos < 1_000_000_000
    }

    /// An empty pool.
    pub fn new(capacity: usize, max_age: Duration) -> (pool: Self)
        requires
            max_age.nanos < 1_000_000_000,
        ensures
            pool.valid(),
            pool@ == Map::<u128, TransactionView>::empty(),
            pool.capacity() == capacity,
            pool.max_age() == max_age,
    {
        let pool = Mempool { transactions: Vec::new(), capacity, max_age };
        assert(pool@ =~= Map::<u128, TransactionView>::empty());
        pool
    }

    proof fn lemma_len(&self)
        requires
            self.valid(),
        ensures
            self@.dom().finite(),
            self@.len() == self.transactions@.len(),
    {
        lemma_keyed_len(transactions_view(self.transactions@), tx_key());
    }

    fn position(&self, id: u128) -> (r: Option<usize>)
        requires
            self.valid(),
        ensures
            r is None <==> !self@.contains_key(id),
            r matches Some(i) ==> i < self.transactions@.len() && self@[id]
                == self.transactions@[i as int]@,
    {
        let ghost all = transactions_view(self.transactions@);
        let mut i: usize = 0;
        while i < self.transactions.len()
            invariant
                all == transactions_view(self.transactions@),
                unique_keys(all, tx_key()),
                i <= self.transactions@.len(),
                forall|k: int| 0 <= k < i ==> self.transactions@[k]@.id != id,
            decreases self.transactions@.len() - i,
        {
            if self.transactions[i].id == id {
                proof {
                    lemma_keyed_index(all, tx_key());
                    assert(all[i as int] == self.transactions@[i as int]@);
                }
                return Some(i);
            }
            i = i + 1;
        }
        proof {
            if self@.contains_key(id) {
                let k = choose|k: int| 0 <= k < all.len() && tx_key()(#[trigger] all[k]) == id;
                assert(all[k] == self.transactions@[k]@);
            }
        }
        None
    }

    /// Adds a transaction received at `now`: it must be valid, unexpired, new
    /// to the pool, and the pool must have room.
    pub fn insert_at(&mut self, transaction: Transaction, now: Timestamp) -> (r: Result<
        (),
        MiniChainError,
    >)
        requires
            old(self).valid(),
            now.nanos < 2_000_000_000,
            cutoff_in_range(now, old(self).max_age()),
        ensures
            final(self).valid(),
            final(self).capacity() == old(self).capacity(),
            final(self).max_age() == old(self).max_age(),
            outcome(r) == insert_check(
                old(self)@,
                old(self).capacity(),
                old(self).max_age(),
                transaction@,
                now,
            ),
            r is Ok ==> final(self)@ == old(self)@.insert(transaction@.id, transaction@),
            r is Err ==> final(self)@ == old(self)@,
    {
        transaction.validate()?;
        if is_expired(transaction.timestamp, now, self.max_age) {
            return Err(MiniChainError::ExpiredTransaction { id: transaction.id });
        }
        if self.position(transaction.id).is_some() {
            return Err(MiniChainError::DuplicateMempoolTransaction { id: transaction.id });
        }
        proof {
            self.lemma_len();
        }
        if self.transactions.len() >= self.capacity {
            return Err(MiniChainError::MempoolFull { capacity: self.capacity });
        }
        let ghost before = transactions_view(self.transactions@);
        let ghost t = transaction@;
        self.transactions.push(transaction);
        proof {
            assert(transactions_view(self.transactions@) =~= before.push(t));
            lemma_keyed_push(before, tx_key(), t);
        }
        Ok(())
    }

    /// Adds a transaction received now (by the system clock).
    pub fn insert(&mut self, transaction: Transaction) -> (r: Result<(), MiniChainError>)
        requires
            old(self).valid(),
            delta_fits(old(self).max_age()) ==> old(self).max_age().seconds < -MIN_TIME_SECONDS,
        ensures
            final(self).valid(),
            final(self).capacity() == old(self).capacity(),
            final(self).max_age() == old(self).max_age(),
            exists|now: Timestamp|
                outcome(r) == insert_check(
                    old(self)@,
                    old(self).capacity(),
                    old(self).max_age(),
                    transaction@,
                    now,
                ),
            r is Ok ==> final(self)@ == old(self)@.insert(transaction@.id, transaction@),
            r is Err ==> final(self)@ == old(self)@,
    {
        let now = current_time();
        self.insert_at(transaction, now)
    }

    /// A copy of the transaction with `id`, if pooled.
    pub fn get(&self, id: u128) -> (r: Option<Transaction>)
        requires
            self.valid(),
        ensures
            r is Some <==> self@.contains_key(id),
            r matches Some(t) ==> t@ == self@[id],
    {
        match self.position(id) {
            Some(i) => Some(self.transactions[i].clone()),
            None => None,
        }
    }

    /// The number of pooled transactions.
    pub fn len(&self) -> (n: usize)
        requires
            self.valid(),
        ensures
            n == self@.len(),
    {
        proof {
            self.lemma_len();
        }
        self.transactions.len()
    }

    /// Whether the pool is empty.
    pub fn is_empty(&self) -> (r: bool)
        requires
            self.valid(),
        ensures
            r == (self@.len() == 0),
    {
        self.len() == 0
    }

    /// Keeps the pooled transactions that satisfy `keep`, given as the
    /// executable test `keeps`.
    fn retain_where(&mut self, keep: Ghost<spec_fn(TransactionView) -> bool>, keeps: Vec<bool>)
        requires
            old(self).valid(),
            keeps@.len() == old(self).transactions@.len(),
            forall|i: int|
                0 <= i < keeps@.len() ==> keeps@[i] == keep@(#[trigger] old(self).transactions@[i]@),
        ensures
            final(self).valid(),
            final(self).capacity() == old(self).capacity(),
            final(self).max_age() == old(self).max_age(),
            final(self)@ == retained(old(self)@, keep@),
    {
        let ghost all = transactions_view(self.transactions@);
        let mut kept: Vec<Transaction> = Vec::new();
        let mut i: usize = 0;
        proof {
            assert(all.subrange(0, 0) =~= Seq::<TransactionView>::empty());
            assert(transactions_view(kept@) =~= Seq::<TransactionView>::empty());
            assert(keyed_map(Seq::<TransactionView>::empty(), tx_key()) =~= Map::empty());
            assert(retained(Map::<u128, TransactionView>::empty(), keep@) =~= Map::empty());
        }
        while i < self.transactions.len()
            invariant
                all == transactions_view(self.transactions@),
                unique_keys(all, tx_key()),
                i <= self.transactions@.len(),
                keeps@.len() == self.transactions@.len(),
                forall|k: int|
                    0 <= k < keeps@.len() ==> keeps@[k] == keep@(#[trigger] self.transactions@[k]@),
                unique_keys(transactions_view(kept@), tx_key()),
                keyed_map(transactions_view(kept@), tx_key()) == retained(
                    keyed_map(all.subrange(0, i as int), tx_key()),
                    keep@,
                ),
            decreases self.transactions@.len() - i,
        {
            let ghost prefix = all.subrange(0, i as int);
            let ghost v = all[i as int];
            let ghost before = transactions_view(kept@);
            proof {
                lemma_unique_prefix(all, tx_key(), i + 1);
                assert(all.subrange(0, i + 1) =~= prefix.push(v));
                lemma_keyed_retain_step(prefix, v, before, tx_key(), keep@);
                assert(v == self.transactions@[i as int]@);
            }
            if keeps[i] {
                kept.push(self.transactions[i].clone());
                assert(transactions_view(kept@) =~= before.push(v));
            }
            i = i + 1;
        }
        assert(all.subrange(0, all.len() as int) =~= all);
        self.transactions = kept;
    }

    /// Drops the pooled transactions with the given IDs (those now in a
    /// block), and returns how many were dropped.
    pub fn remove_committed(&mut self, ids: &[u128]) -> (removed: usize)
        requires
            old(self).valid(),
        ensures
            final(self).valid(),
            final(self).capacity() == old(self).capacity(),
            final(self).max_age() == old(self).max_age(),
            final(self)@ == old(self)@.remove_keys(ids@.to_set()),
            removed == old(self)@.len() - final(self)@.len(),
    {
        let ghost keep = unlisted(ids@);
        let mut keeps: Vec<bool> = Vec::new();
        let mut i: usize = 0;
        while i < self.transactions.len()
            invariant
                keep == unlisted(ids@),
                i <= self.transactions@.len(),
                keeps@.len() == i,
                forall|k: int| 0 <= k < i ==> keeps@[k] == keep(#[trigger] self.transactions@[k]@),
            decreases self.transactions@.len() - i,
        {
            let id = self.transactions[i].id;
            let mut found = false;
            let mut j: usize = 0;
            while j < ids.len()
                invariant
                    j <= ids@.len(),
                    found == exists|k: int| 0 <= k < j && ids@[k] == id,
                decreases ids@.len() - j,
            {
                if ids[j] == id {
                    found = true;
                }
                j = j + 1;
            }
            proof {
                if found {
                    let k = choose|k: int| 0 <= k < ids@.len() && ids@[k] == id;
                    assert(ids@.contains(id));
                }
                if ids@.contains(id) {
                    let k = choose|k: int| 0 <= k < ids@.len() && ids@[k] == id;
                    assert(found);
                }
                assert(keep(self.transactions@[i as int]@) == !found);
            }
            keeps.push(!found);
            i = i + 1;
        }
        proof {
            self.lemma_len();
        }
        let before_len = self.transactions.len();
        let ghost old_map = self@;
        self.retain_where(Ghost(keep), keeps);
        proof {
            self.lemma_len();
            assert(retained(old_map, keep) =~= old_map.remove_keys(ids@.to_set()));
            vstd::set_lib::lemma_len_subset(self@.dom(), old_map.dom());
        }
        before_len - self.transactions.len()
    }

    /// Drops the transactions that have expired at `now`, and returns how
    /// many were dropped.
    pub fn remove_expired(&mut self, now: Timestamp) -> (removed: usize)
        requires
            old(self).valid(),
            now.nanos < 2_000_000_000,
            cutoff_in_range(now, old(self).max_age()),
        ensures
            final(self).valid(),
            final(self).capacity() == old(self).capacity(),
            final(self).max_age() == old(self).max_age(),
            final(self)@ == retained(old(self)@, fresh(now, old(self).max_age())),
            removed == old(self)@.len() - final(self)@.len(),
    {
        let ghost keep = fresh(now, self.max_age);
        let mut keeps: Vec<bool> = Vec::new();
        let mut i: usize = 0;
        while i < self.transactions.len()
            invariant
                self.max_age.nanos < 1_000_000_000,
                now.nanos < 2_000_000_000,
                cutoff_in_range(now, self.max_age),
                keep == fresh(now, self.max_age),
                i <= self.transactions@.len(),
                keeps@.len() == i,
                forall|k: int| 0 <= k < i ==> keeps@[k] == keep(#[trigger] self.transactions@[k]@),
            decreases self.transactions@.len() - i,
        {
            let stale = is_expired(self.transactions[i].timestamp, now, self.max_age);
            keeps.push(!stale);
            i = i + 1;
        }
        proof {
            self.lemma_len();
        }
        let before_len = self.transactions.len();
        let ghost old_map = self@;
        self.retain_where(Ghost(keep), keeps);
        proof {
            self.lemma_len();
            vstd::set_lib::lemma_len_subset(self@.dom(), old_map.dom());
        }
        before_len - self.transactions.len()
    }
}

} // verus!
