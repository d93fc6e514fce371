//! What a memory pool holds, and what each operation does to it.

use crate::crypto::hash::H256;
use crate::order;
use crate::transaction::{CoinId, Input, Output, TransactionView};
use vstd::prelude::*;

verus! {

/// What an entry of the pool holds.
#[verifier::ext_equal]
pub struct EntryView {
    pub transaction: TransactionView,
    pub storage_index: u64,
}

/// What a memory pool holds.
#[verifier::ext_equal]
pub struct PoolView {
    /// Number of transactions.
    pub num_transactions: nat,
    /// Maximum number that the memory pool can hold.
    pub max_transactions: nat,
    /// The storage index that the next transaction gets.
    pub counter: nat,
    /// The entry of each hash.
    pub by_hash: Map<H256, EntryView>,
    /// The transaction that is recorded as spending each input.
    pub by_input: Map<Input, H256>,
    /// The transaction that was stored under each index.
    pub by_storage_index: Map<u64, H256>,
}

/// The coin that output `index` of the transaction `hash` makes, as an input that spends it.
pub open spec fn coin(hash: H256, index: int, output: Output) -> Input {
    Input {
        coin: CoinId { hash, index: index as u32 },
        value: output.value,
        owner: output.recipient,
    }
}

/// The coins that the outputs of the transaction `hash` make.
pub open spec fn coins(hash: H256, output: Seq<Output>) -> Seq<Input> {
    Seq::new(output.len(), |i: int| coin(hash, i, output[i]))
}

impl PoolView {
    /// The pool that holds nothing.
    pub open spec fn empty(max_transactions: nat) -> PoolView {
        PoolView {
            num_transactions: 0,
            max_transactions,
            counter: 0,
            by_hash: Map::empty(),
            by_input: Map::empty(),
            by_storage_index: Map::empty(),
        }
    }

    /// What holds of every pool: its tables are finite, it counts every entry, and it does not
    /// hold more than its limit.
    pub open spec fn valid(self) -> bool {
        &&& self.by_hash.dom().finite()
        &&& self.by_storage_index.dom().finite()
        &&& self.by_hash.dom().len() <= self.num_transactions
        &&& self.num_transactions <= self.max_transactions
        &&& self.counter <= u64::MAX
    }

    /// Whether the pool takes no more transactions.
    pub open spec fn full(self) -> bool {
        self.num_transactions >= self.max_transactions
    }

    /// Whether one of `inputs` is recorded as spent.
    pub open spec fn is_double_spend(self, inputs: Seq<Input>) -> bool {
        exists|i: int| 0 <= i < inputs.len() && self.by_input.contains_key(#[trigger] inputs[i])
    }

    /// Whether a transaction passes the two checks that are due before it is inserted: its hash
    /// is not in the pool, and it is not a double spend.
    pub open spec fn admits(self, hash: H256, transaction: TransactionView) -> bool {
        !self.by_hash.contains_key(hash) && !self.is_double_spend(transaction.input)
    }

    /// Whether a transaction spends what the entry of its hash spends, if there is one.
    pub open spec fn agrees(self, hash: H256, transaction: TransactionView) -> bool {
        self.by_hash.contains_key(hash) ==> self.by_hash[hash].transaction.input
            == transaction.input
    }

    /// Stores `transaction` under `hash` and under the next storage index, and records that it
    /// spends its inputs. A full pool stays as it is.
    pub open spec fn insert(self, hash: H256, transaction: TransactionView) -> PoolView {
        if self.full() {
            self
        } else {
            PoolView {
                num_transactions: self.num_transactions + 1,
                counter: self.counter + 1,
                by_hash: self.by_hash.insert(
                    hash,
                    EntryView { transaction, storage_index: self.counter as u64 },
                ),
                by_input: self.by_input.union_prefer_right(
                    Map::new(|x: Input| transaction.input.contains(x), |x: Input| hash),
                ),
                by_storage_index: self.by_storage_index.insert(self.counter as u64, hash),
                ..self
            }
        }
    }

    /// Takes the entry of `hash` out, with its inputs and its storage index.
    pub open spec fn remove(self, hash: H256) -> PoolView {
        if self.by_hash.contains_key(hash) {
            let entry = self.by_hash[hash];
            PoolView {
                num_transactions: (self.num_transactions - 1) as nat,
                by_hash: self.by_hash.remove(hash),
                by_input: self.by_input.remove_keys(entry.transaction.input.to_set()),
                by_storage_index: self.by_storage_index.remove(entry.storage_index),
                ..self
            }
        } else {
            self
        }
    }

    /// Takes the spender of each queued input out, in order, and queues the coins that it made.
    ///
    /// There is no result where an input is recorded for a transaction that has no entry.
    pub open spec fn remove_spenders(self, queue: Seq<Input>) -> Option<PoolView>
        decreases self.by_hash.dom().len(), queue.len(),
        when self.by_hash.dom().finite()
    {
        if queue.len() == 0 {
            Some(self)
        } else {
            let rest = queue.drop_first();
            if !self.by_input.contains_key(queue[0]) {
                self.remove_spenders(rest)
            } else {
                let hash = self.by_input[queue[0]];
                if !self.by_hash.contains_key(hash) {
                    None
                } else {
                    self.remove(hash).remove_spenders(
                        rest + coins(hash, self.by_hash[hash].transaction.output),
                    )
                }
            }
        }
    }

    /// The storage indices in use, from the oldest transaction to the newest.
    pub open spec fn order(self) -> Seq<u64> {
        order::in_order(self.by_storage_index.dom())
    }

    /// The transactions of the pool, from the oldest to the newest.
    pub open spec fn queue(self) -> Seq<TransactionView> {
        self.order().map_values(
            |i: u64| self.by_hash[self.by_storage_index[i]].transaction,
        )
    }

    /// Whether the `n` oldest storage indices all lead to an entry.
    pub open spec fn listable(self, n: nat) -> bool {
        forall|k: int|
            0 <= k < n && k < self.order().len() ==> self.by_hash.contains_key(
                self.by_storage_index[#[trigger] self.order()[k]],
            )
    }

    /// What holds of a pool into which no transaction was put twice: the storage indices and the
    /// entries lead to each other, and the count is that of the entries.
    pub open spec fn indexed(self) -> bool {
        &&& self.num_transactions == self.by_hash.dom().len()
        &&& forall|h: H256| #[trigger]
            self.by_hash.contains_key(h) ==> {
                let index = self.by_hash[h].storage_index;
                &&& index < self.counter
                &&& self.by_storage_index.contains_key(index)
                &&& self.by_storage_index[index] == h
            }
        &&& forall|i: u64| #[trigger]
            self.by_storage_index.contains_key(i) ==> {
                &&& self.by_hash.contains_key(self.by_storage_index[i])
                &&& self.by_hash[self.by_storage_index[i]].storage_index == i
            }
    }

    /// What holds of a pool into which no two transactions with different inputs were put under
    /// one hash: the transaction that is recorded for an input is in the pool and spends it.
    pub open spec fn spenders_known(self) -> bool {
        forall|x: Input| #[trigger]
            self.by_input.contains_key(x) ==> {
                &&& self.by_hash.contains_key(self.by_input[x])
                &&& self.by_hash[self.by_input[x]].transaction.input.contains(x)
            }
    }

    /// What holds of a pool into which no double spend was put: every input of a transaction is
    /// recorded for that transaction.
    pub open spec fn spends_recorded(self) -> bool {
        forall|h: H256, x: Input|
            #![trigger self.by_hash[h].transaction.input.contains(x)]
            self.by_hash.contains_key(h) && self.by_hash[h].transaction.input.contains(x) ==> {
                &&& self.by_input.contains_key(x)
                &&& self.by_input[x] == h
            }
    }

    /// What holds of a pool into which no transaction was put twice and no input was spent
    /// twice: the three tables agree with each other, and the count with them.
    pub open spec fn consistent(self) -> bool {
        &&& self.valid()
        &&& self.indexed()
        &&& self.spenders_known()
        &&& self.spends_recorded()
    }

    /// Whether every entry stands under the hash of its transaction.
    pub open spec fn keyed_by_hash(self) -> bool {
        forall|h: H256| #[trigger]
            self.by_hash.contains_key(h) ==> self.by_hash[h].transaction.hash() == h
    }

    /// Whether `doomed` holds the spender of each of `roots` and, with a transaction, the
    /// spender of each coin that it made.
    pub open spec fn closed_under_spending(self, roots: Set<Input>, doomed: Set<H256>) -> bool {
        &&& forall|x: Input| #[trigger]
            roots.contains(x) && self.by_input.contains_key(x) ==> doomed.contains(
                self.by_input[x],
            )
        &&& forall|h: H256, x: Input|
            #![trigger doomed.contains(h), self.by_input.contains_key(x)]
            doomed.contains(h) && self.by_hash.contains_key(h) && coins(
                h,
                self.by_hash[h].transaction.output,
            ).contains(x) && self.by_input.contains_key(x) ==> doomed.contains(self.by_input[x])
    }

    /// The transactions that stand or fall with `roots`: the least set that is closed under
    /// spending.
    pub open spec fn dependents(self, roots: Set<Input>) -> Set<H256> {
        Set::new(
            |h: H256|
                forall|doomed: Set<H256>| #[trigger]
                    self.closed_under_spending(roots, doomed) ==> doomed.contains(h),
        )
    }

    /// The pool without the transactions in `gone`, their inputs and their storage indices.
    pub open spec fn without(self, gone: Set<H256>) -> PoolView {
        PoolView {
            num_transactions: self.by_hash.remove_keys(gone).dom().len(),
            by_hash: self.by_hash.remove_keys(gone),
            by_input: Map::new(
                |x: Input| self.by_input.contains_key(x) && !gone.contains(self.by_input[x]),
                |x: Input| self.by_input[x],
            ),
            by_storage_index: Map::new(
                |i: u64|
                    self.by_storage_index.contains_key(i) && !gone.contains(
                        self.by_storage_index[i],
                    ),
                |i: u64| self.by_storage_index[i],
            ),
            ..self
        }
    }

    /// Removing an entry leaves a valid pool, with one entry less.
    pub proof fn lemma_remove_valid(self, hash: H256)
        requires
            self.valid(),
        ensures
            self.remove(hash).valid(),
            self.by_hash.contains_key(hash) ==> self.remove(hash).by_hash.dom().len() + 1
                == self.by_hash.dom().len(),
    {
        if self.by_hash.contains_key(hash) {
            assert(self.remove(hash).by_hash.dom() =~= self.by_hash.dom().remove(hash));
            assert(self.remove(hash).by_storage_index.dom() =~= self.by_storage_index.dom().remove(
                self.by_hash[hash].storage_index,
            ));
        }
    }

    /// Inserting leaves a valid pool.
    pub proof fn lemma_insert_valid(self, hash: H256, transaction: TransactionView)
        requires
            self.valid(),
            self.counter < u64::MAX,
        ensures
            self.insert(hash, transaction).valid(),
    {
        if !self.full() {
            let after = self.insert(hash, transaction);
            assert(after.by_hash.dom() =~= self.by_hash.dom().insert(hash));
            assert(after.by_storage_index.dom() =~= self.by_storage_index.dom().insert(
                self.counter as u64,
            ));
        }
    }
}

} // verus!
