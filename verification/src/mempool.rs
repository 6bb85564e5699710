//! The mempool: a bounded, deduplicated, priority-ordered pool of pending
//! transactions.
//!
//! A transaction's identity is the BLAKE3 digest of its content (sender,
//! nonce, payload). Entries are kept sorted by priority, highest first, with
//! ties broken by arrival order, so `get_top` is deterministic.

use vstd::prelude::*;
use crate::types::{Transaction, TransactionV, Error, tx_digest, tx_content_bytes};
use crate::hashing::{blake3_digest, push_bytes, push_u64_le, bytes32_eq};

verus! {

/// A transaction in the mempool, together with its ingestion time and its
/// caller-supplied priority score (higher = more urgent).
pub struct MempoolTx {
    /// The actual transaction.
    pub transaction: Transaction,
    /// Time added to the mempool, in seconds since the epoch.
    pub timestamp: u64,
    /// Priority score (higher = more priority).
    pub priority: u64,
}

impl Clone for MempoolTx {
    fn clone(&self) -> (r: Self)
        ensures
            r.transaction@ == self.transaction@,
            r.timestamp == self.timestamp,
            r.priority == self.priority,
    {
        MempoolTx {
            transaction: self.transaction.clone(),
            timestamp: self.timestamp,
            priority: self.priority,
        }
    }
}

/// The mathematical value of one pool entry: the transaction, its priority,
/// and its arrival number, which breaks priority ties deterministically.
#[verifier::ext_equal]
pub ghost struct ItemV {
    pub transaction: TransactionV,
    pub priority: u64,
    pub order: int,
}

/// The mathematical value of the whole pool: the entries in dequeue order,
/// the capacity, and the next arrival number.
#[verifier::ext_equal]
pub ghost struct MempoolV {
    pub entries: Seq<ItemV>,
    pub max_size: int,
    pub next_order: int,
}

/// `a` is dequeued before `b`: strictly higher priority, or the same
/// priority and earlier arrival.
pub open spec fn precedes(a: ItemV, b: ItemV) -> bool {
    a.priority > b.priority || (a.priority == b.priority && a.order < b.order)
}

/// The entries are sorted by dequeue order: priority descending, ties by
/// arrival.
pub open spec fn entries_sorted(entries: Seq<ItemV>) -> bool {
    forall|i: int, j: int|
        0 <= i < j < entries.len() ==> precedes(#[trigger] entries[i], #[trigger] entries[j])
}

/// The entries hold pairwise distinct content digests: the pool is
/// deduplicated.
pub open spec fn entries_dedup(entries: Seq<ItemV>) -> bool {
    forall|i: int, j: int|
        0 <= i < j < entries.len() ==> tx_digest((#[trigger] entries[i]).transaction) != tx_digest(
            (#[trigger] entries[j]).transaction,
        )
}

/// Well-formedness of the pool value: entries sorted by dequeue order,
/// deduplicated by content digest, and arrival numbers below the counter.
pub open spec fn pool_wf(m: MempoolV) -> bool {
    &&& entries_sorted(m.entries)
    &&& entries_dedup(m.entries)
    &&& forall|i: int| 0 <= i < m.entries.len() ==> (#[trigger] m.entries[i]).order < m.next_order
    &&& m.max_size >= 0
}

/// Whether some entry has the given content digest.
pub open spec fn pool_contains_digest(entries: Seq<ItemV>, d: Seq<u8>) -> bool {
    exists|i: int| 0 <= i < entries.len() && tx_digest((#[trigger] entries[i]).transaction) == d
}

/// The position at which an entry with the given priority is inserted: after
/// every entry with priority at least as high, before the rest.
pub open spec fn insert_pos(entries: Seq<ItemV>, priority: u64) -> int
    decreases entries.len(),
{
    if entries.len() == 0 {
        0
    } else if entries[0].priority >= priority {
        1 + insert_pos(entries.drop_first(), priority)
    } else {
        0
    }
}

/// The index of the first entry with the given content digest, or the length
/// if there is none.
pub open spec fn digest_index(entries: Seq<ItemV>, d: Seq<u8>) -> int
    decreases entries.len(),
{
    if entries.len() == 0 {
        0
    } else if tx_digest(entries[0].transaction) == d {
        0
    } else {
        1 + digest_index(entries.drop_first(), d)
    }
}

/// The entries after removing the entry with the given content digest, if
/// any; a pool that holds no such entry is left unchanged.
pub open spec fn remove_digest(entries: Seq<ItemV>, d: Seq<u8>) -> Seq<ItemV> {
    if digest_index(entries, d) < entries.len() {
        entries.remove(digest_index(entries, d))
    } else {
        entries
    }
}

/// The entries after removing, in order, the content digest of every listed
/// transaction.
pub open spec fn remove_all(entries: Seq<ItemV>, ts: Seq<TransactionV>) -> Seq<ItemV>
    decreases ts.len(),
{
    if ts.len() == 0 {
        entries
    } else {
        remove_all(remove_digest(entries, tx_digest(ts[0])), ts.drop_first())
    }
}

/// What `add_tx` does to the pool value and what it returns: a transaction
/// already present (by content digest) is a no-op success; a new transaction
/// in a full pool is refused; otherwise the entry is inserted at its sorted
/// position with the next arrival number.
pub open spec fn spec_add(m: MempoolV, t: TransactionV, priority: u64) -> (MempoolV, Result<
    (),
    Error,
>) {
    if pool_contains_digest(m.entries, tx_digest(t)) {
        (m, Ok(()))
    } else if m.entries.len() >= m.max_size {
        (m, Err(Error::MempoolFull))
    } else {
        let item = ItemV { transaction: t, priority, order: m.next_order };
        (
            MempoolV {
                entries: m.entries.insert(insert_pos(m.entries, priority), item),
                max_size: m.max_size,
                next_order: m.next_order + 1,
            },
            Ok(()),
        )
    }
}

/// The transactions of the first `n` entries, in dequeue order.
pub open spec fn spec_top(m: MempoolV, n: int) -> Seq<TransactionV> {
    let k = if n <= m.entries.len() { n } else { m.entries.len() as int };
    m.entries.take(k).map_values(|e: ItemV| e.transaction)
}

struct PoolEntry {
    item: MempoolTx,
    hash: [u8; 32],
    order: u64,
}

/// The mempool itself. Entries are kept sorted by dequeue order and
/// deduplicated by content digest.
pub struct Mempool {
    entries: Vec<PoolEntry>,
    max_size: usize,
    next_order: u64,
}

impl View for Mempool {
    type V = MempoolV;

    closed spec fn view(&self) -> MempoolV {
        MempoolV {
            entries: Seq::new(
                self.entries@.len(),
                |i: int| ItemV {
                    transaction: self.entries@[i].item.transaction@,
                    priority: self.entries@[i].item.priority,
                    order: self.entries@[i].order as int,
                },
            ),
            max_size: self.max_size as int,
            next_order: self.next_order as int,
        }
    }
}

/// `insert_pos` returns the first index whose entry has a strictly lower
/// priority, so everything before it has at least the given priority.
pub proof fn lemma_insert_pos_props(entries: Seq<ItemV>, priority: u64)
    ensures
        0 <= insert_pos(entries, priority) <= entries.len(),
        forall|k: int|
            0 <= k < insert_pos(entries, priority) ==> (#[trigger] entries[k]).priority >= priority,
        insert_pos(entries, priority) < entries.len() ==> entries[insert_pos(
            entries,
            priority,
        )].priority < priority,
    decreases entries.len(),
{
    if entries.len() > 0 && entries[0].priority >= priority {
        lemma_insert_pos_props(entries.drop_first(), priority);
        assert forall|k: int| 0 <= k < insert_pos(entries, priority) implies (#[trigger] entries[k]).priority
            >= priority by {
            if k > 0 {
                assert(entries.drop_first()[k - 1] == entries[k]);
            }
        }
    }
}

/// `digest_index` returns the first index whose entry has the given content
/// digest, or the length if there is none.
pub proof fn lemma_digest_index_props(entries: Seq<ItemV>, d: Seq<u8>)
    ensures
        0 <= digest_index(entries, d) <= entries.len(),
        digest_index(entries, d) < entries.len() ==> tx_digest(
            entries[digest_index(entries, d)].transaction,
        ) == d,
        forall|k: int|
            0 <= k < digest_index(entries, d) ==> tx_digest((#[trigger] entries[k]).transaction)
                != d,
        (digest_index(entries, d) < entries.len()) == pool_contains_digest(entries, d),
    decreases entries.len(),
{
    if entries.len() > 0 && tx_digest(entries[0].transaction) != d {
        lemma_digest_index_props(entries.drop_first(), d);
        assert forall|k: int| 0 <= k < digest_index(entries, d) implies tx_digest(
            (#[trigger] entries[k]).transaction,
        ) != d by {
            if k > 0 {
                assert(entries.drop_first()[k - 1] == entries[k]);
            }
        }
        if pool_contains_digest(entries, d) {
            let i = choose|i: int|
                0 <= i < entries.len() && tx_digest((#[trigger] entries[i]).transaction) == d;
            assert(i > 0);
            assert(entries.drop_first()[i - 1] == entries[i]);
            assert(pool_contains_digest(entries.drop_first(), d));
        }
        if pool_contains_digest(entries.drop_first(), d) {
            let i = choose|i: int|
                0 <= i < entries.drop_first().len() && tx_digest(
                    (#[trigger] entries.drop_first()[i]).transaction,
                ) == d;
            assert(entries[i + 1] == entries.drop_first()[i]);
            assert(pool_contains_digest(entries, d));
        }
    }
}

/// Removing an entry keeps the pool sorted and deduplicated, removes the
/// given digest entirely, and keeps only entries of the original pool.
pub proof fn lemma_remove_digest_wf(entries: Seq<ItemV>, d: Seq<u8>)
    requires
        entries_sorted(entries),
        entries_dedup(entries),
    ensures
        entries_sorted(remove_digest(entries, d)),
        entries_dedup(remove_digest(entries, d)),
        !pool_contains_digest(remove_digest(entries, d), d),
        forall|k: int|
            0 <= k < remove_digest(entries, d).len() ==> entries.contains(
                #[trigger] remove_digest(entries, d)[k],
            ),
{
    lemma_digest_index_props(entries, d);
    let ix = digest_index(entries, d);
    if ix < entries.len() {
        let result = entries.remove(ix);
        assert forall|k: int| 0 <= k < result.len() implies entries.contains(
            #[trigger] result[k],
        ) by {
            if k < ix {
                assert(entries[k] == result[k]);
            } else {
                assert(entries[k + 1] == result[k]);
            }
        }
        assert forall|k: int| 0 <= k < result.len() implies tx_digest(
            (#[trigger] result[k]).transaction,
        ) != d by {
            if k < ix {
                assert(result[k] == entries[k]);
                if tx_digest(entries[k].transaction) == d {
                    assert(k < ix);
                }
            } else {
                assert(result[k] == entries[k + 1]);
                if tx_digest(entries[k + 1].transaction) == d {
                    assert(tx_digest(entries[ix].transaction) == d);
                }
            }
        }
        assert forall|i: int, j: int| 0 <= i < j < result.len() implies precedes(
            #[trigger] result[i],
            #[trigger] result[j],
        ) by {
            let i0 = if i < ix { i } else { i + 1 };
            let j0 = if j < ix { j } else { j + 1 };
            assert(result[i] == entries[i0]);
            assert(result[j] == entries[j0]);
        }
        assert forall|i: int, j: int| 0 <= i < j < result.len() implies tx_digest(
            (#[trigger] result[i]).transaction,
        ) != tx_digest((#[trigger] result[j]).transaction) by {
            let i0 = if i < ix { i } else { i + 1 };
            let j0 = if j < ix { j } else { j + 1 };
            assert(result[i] == entries[i0]);
            assert(result[j] == entries[j0]);
        }
    }
}

/// Removing a digest that the pool does not hold changes nothing.
pub proof fn lemma_remove_absent_noop(entries: Seq<ItemV>, d: Seq<u8>)
    requires
        !pool_contains_digest(entries, d),
    ensures
        remove_digest(entries, d) == entries,
{
    lemma_digest_index_props(entries, d);
}

/// Removing a list of transactions keeps the pool sorted and deduplicated,
/// keeps only entries of the original pool, and never reintroduces a digest.
pub proof fn lemma_remove_all_wf(entries: Seq<ItemV>, ts: Seq<TransactionV>)
    requires
        entries_sorted(entries),
        entries_dedup(entries),
    ensures
        entries_sorted(remove_all(entries, ts)),
        entries_dedup(remove_all(entries, ts)),
        forall|k: int|
            0 <= k < remove_all(entries, ts).len() ==> entries.contains(
                #[trigger] remove_all(entries, ts)[k],
            ),
    decreases ts.len(),
{
    if ts.len() == 0 {
        assert(remove_all(entries, ts) == entries);
        assert forall|k: int| 0 <= k < remove_all(entries, ts).len() implies entries.contains(
            #[trigger] remove_all(entries, ts)[k],
        ) by {
            assert(entries[k] == remove_all(entries, ts)[k]);
        }
    } else {
        let d0 = tx_digest(ts[0]);
        lemma_remove_digest_wf(entries, d0);
        let once = remove_digest(entries, d0);
        lemma_remove_all_wf(once, ts.drop_first());
        assert forall|k: int| 0 <= k < remove_all(entries, ts).len() implies entries.contains(
            #[trigger] remove_all(entries, ts)[k],
        ) by {
            assert(remove_all(entries, ts) == remove_all(once, ts.drop_first()));
            assert(once.contains(remove_all(once, ts.drop_first())[k]));
            let w = choose|w: int|
                0 <= w < once.len() && once[w] == remove_all(once, ts.drop_first())[k];
            assert(entries.contains(once[w]));
        }
    }
}

/// A pool that does not hold a digest still does not hold it after any
/// sequence of removals.
pub proof fn lemma_remove_all_keeps_absent(entries: Seq<ItemV>, ts: Seq<TransactionV>, d: Seq<u8>)
    requires
        entries_sorted(entries),
        entries_dedup(entries),
        !pool_contains_digest(entries, d),
    ensures
        !pool_contains_digest(remove_all(entries, ts), d),
{
    lemma_remove_all_wf(entries, ts);
    let result = remove_all(entries, ts);
    if pool_contains_digest(result, d) {
        let k = choose|k: int|
            0 <= k < result.len() && tx_digest((#[trigger] result[k]).transaction) == d;
        assert(entries.contains(result[k]));
        let i = choose|i: int| 0 <= i < entries.len() && entries[i] == result[k];
        assert(tx_digest(entries[i].transaction) == d);
        assert(pool_contains_digest(entries, d));
    }
}

/// After `remove_included`, no removed transaction can come back out of the
/// pool: the result of removing a list of transactions holds no entry with
/// the content digest of any of them, so `top` never returns one.
pub proof fn lemma_removed_not_in_top(m: MempoolV, ts: Seq<TransactionV>, n: int, i: int)
    requires
        pool_wf(m),
        n >= 0,
        0 <= i < ts.len(),
    ensures
        !pool_contains_digest(remove_all(m.entries, ts), tx_digest(ts[i])),
        forall|j: int|
            0 <= j < spec_top(MempoolV { entries: remove_all(m.entries, ts), ..m }, n).len()
                ==> tx_digest(
                #[trigger] spec_top(MempoolV { entries: remove_all(m.entries, ts), ..m }, n)[j],
            ) != tx_digest(ts[i]),
    decreases ts.len(),
{
    let d = tx_digest(ts[i]);
    let result = remove_all(m.entries, ts);
    if i == 0 {
        lemma_remove_digest_wf(m.entries, d);
        let once = remove_digest(m.entries, d);
        lemma_remove_all_keeps_absent(once, ts.drop_first(), d);
        assert(result == remove_all(once, ts.drop_first()));
    } else {
        lemma_remove_digest_wf(m.entries, tx_digest(ts[0]));
        let once = remove_digest(m.entries, tx_digest(ts[0]));
        let m1 = MempoolV { entries: once, ..m };
        assert(pool_wf(m1)) by {
            assert forall|k: int| 0 <= k < once.len() implies (#[trigger] m1.entries[k]).order
                < m1.next_order by {
                lemma_digest_index_props(m.entries, tx_digest(ts[0]));
                let ix = digest_index(m.entries, tx_digest(ts[0]));
                if ix < m.entries.len() {
                    if k < ix {
                        assert(once[k] == m.entries[k]);
                    } else {
                        assert(once[k] == m.entries[k + 1]);
                    }
                }
            }
        }
        assert(ts.drop_first()[i - 1] == ts[i]);
        lemma_removed_not_in_top(m1, ts.drop_first(), n, i - 1);
        assert(result == remove_all(once, ts.drop_first()));
    }
    let mr = MempoolV { entries: result, ..m };
    let k = if n <= mr.entries.len() {
        n
    } else {
        mr.entries.len() as int
    };
    assert(spec_top(mr, n).len() == k);
    assert forall|j: int| 0 <= j < spec_top(mr, n).len() implies tx_digest(
        #[trigger] spec_top(mr, n)[j],
    ) != d by {
        assert(j < mr.entries.len());
        assert(spec_top(mr, n)[j] == mr.entries[j].transaction);
        if tx_digest(mr.entries[j].transaction) == d {
            assert(0 <= j < result.len() && tx_digest(result[j].transaction) == d);
            assert(pool_contains_digest(result, d));
        }
    }
}

/// Re-adding a transaction that a successful `add_tx` has already put in the
/// pool is a no-op that still succeeds, whatever priority it is re-submitted
/// with: the pool is unchanged and the result is `Ok`.
pub proof fn lemma_add_idempotent(m: MempoolV, t: TransactionV, p1: u64, p2: u64)
    requires
        pool_wf(m),
        m.next_order < u64::MAX as int,
        spec_add(m, t, p1).1 == Ok::<(), Error>(()),
    ensures
        spec_add(spec_add(m, t, p1).0, t, p2).0 == spec_add(m, t, p1).0,
        spec_add(spec_add(m, t, p1).0, t, p2).1 == Ok::<(), Error>(()),
{
    let m1 = spec_add(m, t, p1).0;
    if pool_contains_digest(m.entries, tx_digest(t)) {
        assert(m1 == m);
    } else {
        let pos = insert_pos(m.entries, p1);
        lemma_insert_pos_props(m.entries, p1);
        let item = ItemV { transaction: t, priority: p1, order: m.next_order };
        assert(m1.entries == m.entries.insert(pos, item));
        assert(m1.entries[pos] == item);
        assert(pool_contains_digest(m1.entries, tx_digest(t)));
    }
}

/// `top` is stable: on an unchanged pool it returns the same sequence every
/// time, and that sequence is ordered by priority, highest first.
pub proof fn lemma_top_ordered(m: MempoolV, n: int, i: int, j: int)
    requires
        pool_wf(m),
        n >= 0,
        0 <= i < j < spec_top(m, n).len(),
    ensures
        spec_top(m, n)[i] == m.entries[i].transaction,
        spec_top(m, n)[j] == m.entries[j].transaction,
        m.entries[i].priority >= m.entries[j].priority,
{
    let k = if n <= m.entries.len() {
        n
    } else {
        m.entries.len() as int
    };
    assert(spec_top(m, n).len() == k);
    assert(j < m.entries.len());
    assert(precedes(m.entries[i], m.entries[j]));
}

impl Mempool {
    /// Whether the internal representation matches its mathematical value:
    /// every stored hash is the digest of its own transaction, and the pool
    /// value is well formed.
    pub closed spec fn inv(&self) -> bool {
        &&& pool_wf(self@)
        &&& forall|i: int|
            0 <= i < self.entries@.len() ==> (#[trigger] self.entries@[i]).hash@ == tx_digest(
                self.entries@[i].item.transaction@,
            )
    }

    /// Creates an empty mempool with the given capacity.
    pub fn new(max_size: usize) -> (r: Self)
        ensures
            r.inv(),
            r@.entries.len() == 0,
            r@.max_size == max_size as int,
            r@.next_order == 0,
    {
        let r = Mempool { entries: Vec::new(), max_size, next_order: 0 };
        proof {
            assert(r@.entries =~= Seq::<ItemV>::empty());
        }
        r
    }

    /// The content digest that identifies a transaction in the pool: the
    /// BLAKE3 digest of sender, little-endian nonce, and payload.
    pub fn hash_tx(&self, tx: &Transaction) -> (r: [u8; 32])
        ensures
            r@ == tx_digest(tx@),
    {
        let mut bytes: Vec<u8> = Vec::new();
        push_bytes(&mut bytes, tx.sender.as_slice());
        push_u64_le(&mut bytes, tx.nonce);
        push_bytes(&mut bytes, tx.payload.as_slice());
        proof {
            assert(bytes@ =~= tx_content_bytes(tx@));
        }
        blake3_digest(bytes.as_slice())
    }
}

/// Adding a new transaction to a well-formed pool keeps it well formed: the
/// entry goes to its sorted position, its arrival number is fresh, and its
/// digest was not present.
pub proof fn lemma_add_preserves_wf(m: MempoolV, t: TransactionV, priority: u64)
    requires
        pool_wf(m),
        m.next_order < u64::MAX as int,
    ensures
        pool_wf(spec_add(m, t, priority).0),
        spec_add(m, t, priority).0.max_size == m.max_size,
{
    if !pool_contains_digest(m.entries, tx_digest(t)) && m.entries.len() < m.max_size {
        lemma_insert_pos_props(m.entries, priority);
        let pos = insert_pos(m.entries, priority);
        let item = ItemV { transaction: t, priority, order: m.next_order };
        let result = m.entries.insert(pos, item);
        assert forall|i: int, j: int| 0 <= i < j < result.len() implies precedes(
            #[trigger] result[i],
            #[trigger] result[j],
        ) by {
            if j == pos {
                assert(result[i] == m.entries[i]);
                assert(m.entries[i].priority >= priority);
            } else if i == pos {
                let j0 = j - 1;
                assert(result[j] == m.entries[j0]);
                if pos < m.entries.len() {
                    if j0 > pos {
                        assert(precedes(m.entries[pos], m.entries[j0]));
                    }
                    assert(m.entries[pos].priority < priority);
                    assert(m.entries[j0].priority < priority);
                }
            } else {
                let i0 = if i < pos { i } else { i - 1 };
                let j0 = if j < pos { j } else { j - 1 };
                assert(result[i] == m.entries[i0]);
                assert(result[j] == m.entries[j0]);
            }
        }
        assert forall|i: int| 0 <= i < result.len() implies (#[trigger] result[i]).order
            < m.next_order + 1 by {
            if i != pos {
                let i0 = if i < pos { i } else { i - 1 };
                assert(result[i] == m.entries[i0]);
            }
        }
        assert forall|i: int, j: int| 0 <= i < j < result.len() implies tx_digest(
            (#[trigger] result[i]).transaction,
        ) != tx_digest((#[trigger] result[j]).transaction) by {
            if i == pos {
                let j0 = j - 1;
                assert(result[j] == m.entries[j0]);
                if tx_digest(m.entries[j0].transaction) == tx_digest(t) {
                    assert(pool_contains_digest(m.entries, tx_digest(t)));
                }
            } else if j == pos {
                assert(result[i] == m.entries[i]);
                if tx_digest(m.entries[i].transaction) == tx_digest(t) {
                    assert(pool_contains_digest(m.entries, tx_digest(t)));
                }
            } else {
                let i0 = if i < pos { i } else { i - 1 };
                let j0 = if j < pos { j } else { j - 1 };
                assert(result[i] == m.entries[i0]);
                assert(result[j] == m.entries[j0]);
            }
        }
    }
}

/// Relies on std::time::SystemTime: the number of whole seconds since the
/// Unix epoch, or zero if the clock reads earlier than the epoch. Nothing is
/// assumed of the value: it depends on the wall clock.
#[verifier::external_body]
fn now_secs() -> u64 {
    match std::time::SystemTime::now().duration_since(std::time::UNIX_EPOCH) {
        Ok(d) => d.as_secs(),
        Err(_) => 0,
    }
}

impl Mempool {
    /// A well-kept mempool has a well-formed mathematical value.
    pub proof fn lemma_inv_wf(&self)
        requires
            self.inv(),
        ensures
            pool_wf(self@),
    {
    }

    /// How many transactions have ever been accepted: the next arrival
    /// number. `add_tx` requires this counter not to be exhausted.
    pub fn arrival_count(&self) -> (r: u64)
        ensures
            r as int == self@.next_order,
    {
        self.next_order
    }

    /// Adds a transaction with the given priority. Re-submitting a
    /// transaction already in the pool succeeds without changing anything; a
    /// new transaction is refused when the pool is at capacity, and otherwise
    /// recorded at its priority position with the current time.
    pub fn add_tx(&mut self, tx: Transaction, priority: u64) -> (r: Result<(), Error>)
        requires
            old(self).inv(),
            old(self)@.next_order < u64::MAX as int,
        ensures
            final(self).inv(),
            final(self)@ == spec_add(old(self)@, tx@, priority).0,
            r == spec_add(old(self)@, tx@, priority).1,
    {
        let tx_hash = self.hash_tx(&tx);
        let ghost entries0 = self@.entries;
        let mut i: usize = 0;
        while i < self.entries.len()
            invariant
                i <= entries0.len(),
                self.inv(),
                self@ == old(self)@,
                entries0 == self@.entries,
                tx_hash@ == tx_digest(tx@),
                forall|k: int|
                    0 <= k < i ==> tx_digest((#[trigger] entries0[k]).transaction) != tx_hash@,
            decreases entries0.len() - i,
        {
            let same = bytes32_eq(&self.entries[i].hash, &tx_hash);
            proof {
                assert(self.entries@[i as int].hash@ == tx_digest(entries0[i as int].transaction));
            }
            if same {
                proof {
                    assert(pool_contains_digest(entries0, tx_digest(tx@)));
                }
                return Ok(());
            }
            i = i + 1;
        }
        proof {
            assert(!pool_contains_digest(entries0, tx_digest(tx@)));
        }
        if self.entries.len() >= self.max_size {
            return Err(Error::MempoolFull);
        }
        proof {
            lemma_add_preserves_wf(self@, tx@, priority);
            lemma_insert_pos_props(entries0, priority);
        }
        let timestamp = now_secs();
        let ghost m0 = self@;
        let mut pos: usize = 0;
        let mut stop: bool = false;
        while !stop && pos < self.entries.len()
            invariant
                pos <= entries0.len(),
                self.inv(),
                self@ == old(self)@,
                entries0 == self@.entries,
                forall|k: int| 0 <= k < pos ==> (#[trigger] entries0[k]).priority >= priority,
                stop ==> pos < entries0.len() && entries0[pos as int].priority < priority,
            decreases entries0.len() - pos + (if stop {
                0int
            } else {
                1int
            }),
        {
            if self.entries[pos].item.priority < priority {
                stop = true;
            } else {
                pos = pos + 1;
            }
        }
        proof {
            let ipos = insert_pos(entries0, priority);
            if (pos as int) < ipos {
                assert(entries0[pos as int].priority >= priority);
                assert(false);
            }
            if ipos < pos as int {
                assert(entries0[ipos].priority >= priority);
                assert(false);
            }
        }
        let entry = PoolEntry {
            item: MempoolTx { transaction: tx, timestamp, priority },
            hash: tx_hash,
            order: self.next_order,
        };
        self.entries.insert(pos, entry);
        self.next_order = self.next_order + 1;
        proof {
            let item = ItemV { transaction: tx@, priority, order: m0.next_order };
            assert(self@.entries =~= m0.entries.insert(insert_pos(m0.entries, priority), item));
            assert(self@ == spec_add(m0, tx@, priority).0);
        }
        Ok(())
    }

    /// The top `n` transactions by priority, highest first, ties in arrival
    /// order; a peek that removes nothing.
    pub fn get_top(&self, n: usize) -> (r: Vec<Transaction>)
        requires
            self.inv(),
        ensures
            r@.len() == spec_top(self@, n as int).len(),
            forall|i: int| 0 <= i < r@.len() ==> (#[trigger] r@[i])@ == spec_top(self@, n as int)[i],
            r@.len() == if n as int <= self@.entries.len() {
                n as int
            } else {
                self@.entries.len() as int
            },
            forall|i: int| 0 <= i < r@.len() ==> (#[trigger] r@[i])@ == self@.entries[i].transaction,
    {
        let k = if n <= self.entries.len() {
            n
        } else {
            self.entries.len()
        };
        let mut out: Vec<Transaction> = Vec::new();
        let mut i: usize = 0;
        while i < k
            invariant
                i <= k,
                k as int == spec_top(self@, n as int).len(),
                k <= self.entries@.len(),
                out@.len() == i as int,
                forall|j: int|
                    0 <= j < i ==> (#[trigger] out@[j])@ == self@.entries[j].transaction,
            decreases k - i,
        {
            out.push(self.entries[i].item.transaction.clone());
            i = i + 1;
        }
        proof {
            assert(forall|j: int|
                0 <= j < k ==> spec_top(self@, n as int)[j] == self@.entries[j].transaction);
        }
        out
    }

    /// Removes each listed transaction from the pool, matched by content
    /// digest; a transaction that is not in the pool is ignored.
    pub fn remove_included(&mut self, txs: &[Transaction])
        requires
            old(self).inv(),
        ensures
            final(self).inv(),
            final(self)@.entries == remove_all(
                old(self)@.entries,
                Seq::new(txs@.len(), |i: int| txs@[i]@),
            ),
            final(self)@.max_size == old(self)@.max_size,
            final(self)@.next_order == old(self)@.next_order,
    {
        let ghost tviews = Seq::new(txs@.len(), |i: int| txs@[i]@);
        let mut i: usize = 0;
        proof {
            assert(tviews.take(0) =~= Seq::<TransactionV>::empty());
        }
        while i < txs.len()
            invariant
                i <= txs@.len(),
                tviews == Seq::new(txs@.len(), |k: int| txs@[k]@),
                self.inv(),
                self@.entries == remove_all(old(self)@.entries, tviews.take(i as int)),
                self@.max_size == old(self)@.max_size,
                self@.next_order == old(self)@.next_order,
                old(self).inv(),
            decreases txs@.len() - i,
        {
            let d = self.hash_tx(&txs[i]);
            let ghost entries0 = self@.entries;
            let mut j: usize = 0;
            let mut found: bool = false;
            while !found && j < self.entries.len()
                invariant
                    j <= entries0.len(),
                    entries0 == self@.entries,
                    self.inv(),
                    d@ == tx_digest(txs@[i as int]@),
                    i < txs@.len(),
                    forall|k: int|
                        0 <= k < j ==> tx_digest((#[trigger] entries0[k]).transaction) != d@,
                    found ==> j < entries0.len() && tx_digest(entries0[j as int].transaction)
                        == d@,
                decreases entries0.len() - j + (if found { 0int } else { 1int }),
            {
                let same = bytes32_eq(&self.entries[j].hash, &d);
                proof {
                    assert(self.entries@[j as int].hash@ == tx_digest(
                        entries0[j as int].transaction,
                    ));
                }
                if same {
                    found = true;
                } else {
                    j = j + 1;
                }
            }
            proof {
                lemma_digest_index_props(entries0, d@);
                let ix = digest_index(entries0, d@);
                if found {
                    if (j as int) < ix {
                        assert(tx_digest(entries0[j as int].transaction) != d@);
                        assert(false);
                    }
                    if ix < j as int {
                        assert(tx_digest(entries0[ix].transaction) != d@);
                        assert(false);
                    }
                } else {
                    assert(!pool_contains_digest(entries0, d@));
                    assert(ix == entries0.len());
                }
                lemma_remove_digest_wf(entries0, d@);
            }
            if found {
                let ghost exec0 = self.entries@;
                self.entries.remove(j);
                proof {
                    assert(self@.entries =~= entries0.remove(j as int));
                    assert(self@.entries == remove_digest(entries0, d@));
                    assert forall|k: int| 0 <= k < self.entries@.len() implies (
                    #[trigger] self.entries@[k]).hash@ == tx_digest(
                        self.entries@[k].item.transaction@,
                    ) by {
                        if k < j as int {
                            assert(self.entries@[k] == exec0[k]);
                        } else {
                            assert(self.entries@[k] == exec0[k + 1]);
                        }
                    }
                    assert forall|k: int| 0 <= k < self@.entries.len() implies (
                    #[trigger] self@.entries[k]).order < self@.next_order by {
                        if k < j as int {
                            assert(self@.entries[k] == entries0[k]);
                        } else {
                            assert(self@.entries[k] == entries0[k + 1]);
                        }
                    }
                }
            } else {
                proof {
                    assert(self@.entries == remove_digest(entries0, d@));
                }
            }
            proof {
                lemma_remove_all_push(
                    old(self)@.entries,
                    tviews.take(i as int),
                    tviews[i as int],
                );
                assert(tviews.take(i + 1) =~= tviews.take(i as int).push(tviews[i as int]));
                assert(self@.entries == remove_all(old(self)@.entries, tviews.take(i + 1)));
            }
            i = i + 1;
        }
        proof {
            assert(tviews.take(txs@.len() as int) =~= tviews);
        }
    }
}

/// Removing one more digest at the end of a removal list is the same as
/// removing it from the result of the list.
pub proof fn lemma_remove_all_push(entries: Seq<ItemV>, ts: Seq<TransactionV>, t: TransactionV)
    ensures
        remove_all(entries, ts.push(t)) == remove_digest(remove_all(entries, ts), tx_digest(t)),
    decreases ts.len(),
{
    if ts.len() == 0 {
        assert(ts.push(t)[0] == t);
        assert(ts.push(t).drop_first() =~= Seq::<TransactionV>::empty());
        assert(remove_all(entries, ts.push(t)) == remove_all(
            remove_digest(entries, tx_digest(t)),
            Seq::<TransactionV>::empty(),
        ));
        assert(remove_all(remove_digest(entries, tx_digest(t)), Seq::<TransactionV>::empty())
            == remove_digest(entries, tx_digest(t)));
        assert(remove_all(entries, ts) == entries);
    } else {
        assert(ts.push(t)[0] == ts[0]);
        assert(ts.push(t).drop_first() =~= ts.drop_first().push(t));
        let first_removed = remove_digest(entries, tx_digest(ts[0]));
        assert(remove_all(entries, ts.push(t)) == remove_all(
            first_removed,
            ts.drop_first().push(t),
        ));
        lemma_remove_all_push(first_removed, ts.drop_first(), t);
        assert(remove_all(entries, ts) == remove_all(first_removed, ts.drop_first()));
    }
}

} // verus!
