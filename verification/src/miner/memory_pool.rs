//! The transactions that wait to be put into a block.

use crate::crypto::hash::H256;
use crate::miner::pool_view::{self, EntryView, PoolView};
use crate::order;
use crate::table::Table;
use crate::transaction::{CoinId, Input, Transaction};
use std::collections::BTreeMap;
use std::collections::VecDeque;
use vstd::prelude::*;

verus! {

/// transactions storage
#[derive(Debug)]
pub struct MemoryPool {
    /// Number of transactions
    num_transactions: u64,
    /// Maximum number that the memory pool can hold
    max_transactions: u64,
    /// Counter for storage index
    counter: u64,
    /// By-hash storage
    by_hash: Table<H256, Entry>,
    /// Transactions by previous output, formatted as Input
    by_input: Table<Input, H256>,
    /// Storage for order by storage index, it is equivalent to FIFO
    by_storage_index: BTreeMap<u64, H256>,
}

#[derive(Debug)]
pub struct Entry {
    /// Transaction
    pub transaction: Transaction,
    /// counter of the tx
    pub storage_index: u64,
}

impl View for Entry {
    type V = EntryView;

    open spec fn view(&self) -> EntryView {
        EntryView { transaction: self.transaction@, storage_index: self.storage_index }
    }
}

impl Clone for Entry {
    fn clone(&self) -> (copy: Self)
        ensures
            copy@ == self@,
    {
        Entry { transaction: self.transaction.clone(), storage_index: self.storage_index }
    }
}

impl View for MemoryPool {
    type V = PoolView;

    closed spec fn view(&self) -> PoolView {
        PoolView {
            num_transactions: self.num_transactions as nat,
            max_transactions: self.max_transactions as nat,
            counter: self.counter as nat,
            by_hash: self.by_hash@.map_values(|e: Entry| e@),
            by_input: self.by_input@,
            by_storage_index: self.by_storage_index@,
        }
    }
}

impl MemoryPool {
    /// What holds of every pool.
    pub open spec fn wf(&self) -> bool {
        self@.valid()
    }

    /// A pool that holds nothing, and that will hold up to `size_limit` transactions.
    pub fn new(size_limit: u64) -> (pool: Self)
        ensures
            pool.wf(),
            pool@ == PoolView::empty(size_limit as nat),
            pool@.consistent(),
            pool@.keyed_by_hash(),
    {
        let pool = Self {
            num_transactions: 0,
            max_transactions: size_limit,
            counter: 0,
            by_hash: Table::new(),
            by_input: Table::new(),
            by_storage_index: BTreeMap::new(),
        };
        proof {
            assert(pool@ =~= PoolView::empty(size_limit as nat));
            PoolView::lemma_empty_consistent(size_limit as nat);
        }
        pool
    }

    /// Insert a tx into memory pool. The input of it will also be recorded.
    pub fn insert(&mut self, tx: Transaction)
        requires
            old(self).wf(),
            !old(self)@.full() ==> tx@.hashable() && old(self)@.counter < u64::MAX,
        ensures
            final(self).wf(),
            final(self)@ == old(self)@.insert(tx@.hash(), tx@),
            old(self)@.consistent() && old(self)@.admits(tx@.hash(), tx@)
                ==> final(self)@.consistent(),
            old(self)@.indexed() && !old(self)@.by_hash.contains_key(tx@.hash())
                ==> final(self)@.indexed(),
            old(self)@.spenders_known() && old(self)@.agrees(tx@.hash(), tx@)
                ==> final(self)@.spenders_known(),
            old(self)@.keyed_by_hash() ==> final(self)@.keyed_by_hash(),
    {
        if self.num_transactions >= self.max_transactions {
            return;
        }
        let hash = tx.hash();
        self.insert_hashed(hash, tx);
    }

    /// Insert a tx whose hash is known.
    pub fn insert_hashed(&mut self, hash: H256, tx: Transaction)
        requires
            old(self).wf(),
            !old(self)@.full() ==> old(self)@.counter < u64::MAX,
        ensures
            final(self).wf(),
            final(self)@ == old(self)@.insert(hash, tx@),
            old(self)@.consistent() && old(self)@.admits(hash, tx@) ==> final(self)@.consistent(),
            old(self)@.indexed() && !old(self)@.by_hash.contains_key(hash)
                ==> final(self)@.indexed(),
            old(self)@.spenders_known() && old(self)@.agrees(hash, tx@)
                ==> final(self)@.spenders_known(),
    {
        if self.num_transactions >= self.max_transactions {
            return;
        }
        // assumes no duplicates nor double spends
        let entry = Entry { transaction: tx, storage_index: self.counter };
        self.counter = self.counter + 1;

        // associate all inputs with this transaction
        let mut i: usize = 0;
        while i < entry.transaction.input.len()
            invariant
                i <= entry.transaction.input@.len(),
                self.num_transactions == old(self).num_transactions,
                self.max_transactions == old(self).max_transactions,
                self.counter == old(self).counter + 1,
                self.by_hash == old(self).by_hash,
                self.by_storage_index == old(self).by_storage_index,
                self.by_input@ =~= old(self).by_input@.union_prefer_right(
                    Map::new(
                        |x: Input| entry.transaction.input@.take(i as int).contains(x),
                        |x: Input| hash,
                    ),
                ),
            decreases entry.transaction.input@.len() - i,
        {
            let ghost seen = entry.transaction.input@.take(i as int);
            let ghost next = entry.transaction.input@.take(i + 1);
            let input = entry.transaction.input[i];
            self.by_input.insert(input, hash);
            proof {
                assert(next =~= seen.push(input));
                assert forall|x: Input| next.contains(x) == (seen.contains(x) || x == input) by {
                    if seen.contains(x) {
                        let k = choose|k: int| 0 <= k < seen.len() && seen[k] == x;
                        assert(next[k] == x);
                    }
                    assert(next[i as int] == input);
                }
            }
            i = i + 1;
        }
        assert(entry.transaction.input@.take(i as int) =~= tx@.input);

        // add to btree
        self.by_storage_index.insert(entry.storage_index, hash);

        // add to the by-hash storage
        let ghost entry_view = entry@;
        self.by_hash.insert(hash, entry);

        self.num_transactions = self.num_transactions + 1;
        proof {
            assert(self@.by_hash =~= old(self)@.by_hash.insert(hash, entry_view));
            assert(self@ =~= old(self)@.insert(hash, tx@));
            old(self)@.lemma_insert_valid(hash, tx@);
            old(self)@.lemma_insert_keeps(hash, tx@);
        }
    }

    /// The entry of a tx hash.
    pub fn get(&self, h: &H256) -> (entry: Option<&Entry>)
        ensures
            match entry {
                Some(e) => self@.by_hash.contains_key(*h) && self@.by_hash[*h] == e@,
                None => !self@.by_hash.contains_key(*h),
            },
    {
        let entry = self.by_hash.get(h)?;
        Some(entry)
    }

    /// Check whether a tx hash is in memory pool
    /// When adding tx into mempool, should check this.
    pub fn contains(&self, h: &H256) -> (found: bool)
        ensures
            found == self@.by_hash.contains_key(*h),
    {
        self.by_hash.contains_key(h)
    }

    /// Check whether the input of a tx is already recorded. If so, this tx is a double spend.
    /// When adding tx into mempool, should check this.
    pub fn is_double_spend(&self, inputs: &[Input]) -> (found: bool)
        ensures
            found == self@.is_double_spend(inputs@),
    {
        let mut i: usize = 0;
        while i < inputs.len()
            invariant
                i <= inputs@.len(),
                forall|j: int| 0 <= j < i ==> !self@.by_input.contains_key(#[trigger] inputs@[j]),
            decreases inputs@.len() - i,
        {
            if self.by_input.contains_key(&inputs[i]) {
                assert(self@.by_input.contains_key(inputs@[i as int]));
                return true;
            }
            i = i + 1;
        }
        false
    }

    /// Take the entry of a tx hash out, with its inputs and its storage index.
    fn remove_and_get(&mut self, hash: &H256) -> (entry: Option<Entry>)
        requires
            old(self).wf(),
        ensures
            final(self).wf(),
            final(self)@ == old(self)@.remove(*hash),
            match entry {
                Some(e) => old(self)@.by_hash.contains_key(*hash) && old(self)@.by_hash[*hash]
                    == e@,
                None => !old(self)@.by_hash.contains_key(*hash),
            },
    {
        proof {
            old(self)@.lemma_remove_valid(*hash);
        }
        let entry = match self.by_hash.remove(hash) {
            Some(entry) => entry,
            None => {
                assert(self@.by_hash =~= old(self)@.by_hash);
                assert(self@ =~= old(self)@);
                return None;
            },
        };
        let mut i: usize = 0;
        while i < entry.transaction.input.len()
            invariant
                i <= entry.transaction.input@.len(),
                self.num_transactions == old(self).num_transactions,
                self.max_transactions == old(self).max_transactions,
                self.counter == old(self).counter,
                self.by_hash@ == old(self).by_hash@.remove(*hash),
                self.by_storage_index == old(self).by_storage_index,
                self.by_input@ =~= old(self).by_input@.remove_keys(
                    entry.transaction.input@.take(i as int).to_set(),
                ),
            decreases entry.transaction.input@.len() - i,
        {
            let ghost seen = entry.transaction.input@.take(i as int);
            let ghost next = entry.transaction.input@.take(i + 1);
            let input = entry.transaction.input[i];
            self.by_input.remove(&input);
            proof {
                assert(next =~= seen.push(input));
                assert forall|x: Input|
                    next.to_set().contains(x) == (seen.to_set().contains(x) || x == input) by {
                    if seen.contains(x) {
                        let k = choose|k: int| 0 <= k < seen.len() && seen[k] == x;
                        assert(next[k] == x);
                    }
                    assert(next[i as int] == input);
                }
            }
            i = i + 1;
        }
        assert(entry.transaction.input@.take(i as int) =~= entry@.transaction.input);
        self.by_storage_index.remove(&entry.storage_index);
        self.num_transactions = self.num_transactions - 1;
        proof {
            assert(self@.by_hash =~= old(self)@.by_hash.remove(*hash));
            assert(self@ =~= old(self)@.remove(*hash));
        }
        Some(entry)
    }

    /// Remove a tx by its hash, also remove its recorded inputs
    pub fn remove_by_hash(&mut self, hash: &H256)
        requires
            old(self).wf(),
        ensures
            final(self).wf(),
            final(self)@ == old(self)@.remove(*hash),
            old(self)@.consistent() ==> {
                &&& final(self)@ == old(self)@.without(set![*hash])
                &&& final(self)@.consistent()
            },
            old(self)@.indexed() ==> final(self)@.indexed(),
            old(self)@.spenders_known() ==> final(self)@.spenders_known(),
            old(self)@.keyed_by_hash() ==> final(self)@.keyed_by_hash(),
    {
        self.remove_and_get(hash);
        proof {
            old(self)@.lemma_remove_keeps(*hash);
            if old(self)@.consistent() {
                old(self)@.lemma_remove_is_without(*hash);
            }
        }
    }

    /// Remove potential tx that use this input.
    /// This function runs recursively, so it may remove more transactions.
    pub fn remove_by_input(&mut self, prevout: &Input)
        requires
            old(self).wf(),
            old(self)@.spenders_known() || old(self)@.remove_spenders(seq![*prevout]) is Some,
        ensures
            final(self).wf(),
            Some(final(self)@) == old(self)@.remove_spenders(seq![*prevout]),
            old(self)@.consistent() ==> {
                &&& final(self)@ == old(self)@.without(old(self)@.dependents(set![*prevout]))
                &&& final(self)@.consistent()
            },
            old(self)@.indexed() ==> final(self)@.indexed(),
            old(self)@.spenders_known() ==> final(self)@.spenders_known(),
            old(self)@.keyed_by_hash() ==> final(self)@.keyed_by_hash(),
    {
        proof {
            old(self)@.lemma_remove_spenders_keeps(seq![*prevout]);
            if old(self)@.consistent() {
                old(self)@.lemma_remove_spenders(seq![*prevout]);
                assert(seq![*prevout].to_set() =~= set![*prevout]) by {
                    assert(seq![*prevout][0] == *prevout);
                }
            }
        }
        //use a deque to recursively remove, in case there are multi level dependency between txs.
        let mut queue: VecDeque<Input> = VecDeque::new();
        queue.push_back(*prevout);
        assert(queue@ =~= seq![*prevout]);

        while queue.len() > 0
            invariant
                self.wf(),
                old(self)@.remove_spenders(seq![*prevout]) is Some,
                self@.remove_spenders(queue@) == old(self)@.remove_spenders(seq![*prevout]),
            decreases self@.by_hash.dom().len(), queue@.len(),
        {
            let ghost before = self@;
            let ghost waiting = queue@;
            let next = queue.pop_front().unwrap();
            assert(queue@ =~= waiting.drop_first());
            if let Some(entry_hash) = self.by_input.get(&next) {
                let entry_hash = *entry_hash;
                let entry = self.remove_and_get(&entry_hash).unwrap();
                let output = &entry.transaction.output;
                proof {
                    before.lemma_remove_valid(entry_hash);
                }
                let ghost rest = queue@;
                let ghost made = pool_view::coins(entry_hash, output@);
                let mut index: usize = 0;
                while index < output.len()
                    invariant
                        index <= output@.len(),
                        made == pool_view::coins(entry_hash, output@),
                        queue@ =~= rest + made.take(index as int),
                    decreases output@.len() - index,
                {
                    let coin = Input {
                        coin: CoinId { hash: entry_hash, index: index as u32 },
                        value: output[index].value,
                        owner: output[index].recipient,
                    };
                    queue.push_back(coin);
                    assert(made.take(index + 1) =~= made.take(index as int).push(coin));
                    index = index + 1;
                }
                assert(made.take(index as int) =~= made);
            }
        }
    }

    /// get n transaction by fifo
    pub fn get_transactions(&self, n: u32) -> (transactions: Vec<Transaction>)
        requires
            self.wf(),
            self@.indexed() || self@.listable(n as nat),
        ensures
            transactions@.len() == if n < self@.queue().len() {
                n as nat
            } else {
                self@.queue().len()
            },
            forall|i: int|
                0 <= i < transactions@.len() ==> #[trigger] transactions@[i]@
                    == self@.queue()[i],
    {
        proof {
            if self@.indexed() {
                self@.lemma_listable(n as nat);
            }
        }
        let mut transactions: Vec<Transaction> = Vec::new();
        let stored = self.by_storage_index.iter();
        proof {
            self.lemma_iteration_order(vstd::std_specs::iter::IteratorSpec::remaining(&stored));
        }
        for kv in it: stored
            invariant_except_break
                transactions@.len() == it.index(),
            invariant
                self@.listable(n as nat),
                it.seq().len() == self@.order().len(),
                forall|k: int|
                    0 <= k < it.seq().len() ==> {
                        let pair = #[trigger] it.seq()[k];
                        &&& *pair.0 == self@.order()[k]
                        &&& *pair.1 == self@.by_storage_index[*pair.0]
                    },
                transactions@.len() <= n,
                transactions@.len() <= self@.order().len(),
                forall|k: int|
                    0 <= k < transactions@.len() ==> #[trigger] transactions@[k]@
                        == self@.queue()[k],
            ensures
                transactions@.len() == n || transactions@.len() == self@.order().len(),
        {
            if transactions.len() >= n as usize {
                break;
            }
            let ghost i = self@.order()[it.index() as int];
            assert(self@.by_hash.contains_key(self@.by_storage_index[i]));
            let entry = self.get(kv.1).unwrap();
            transactions.push(entry.transaction.clone());
        }
        transactions
    }

    /// The indices come out in ascending order, each with its hash.
    proof fn lemma_iteration_order(&self, pairs: Seq<(&u64, &H256)>)
        requires
            vstd::std_specs::btree::increasing_seq(
                pairs.map_values(|kv: (&u64, &H256)| *kv.0),
            ),
            forall|k: int|
                0 <= k < pairs.len() ==> self.by_storage_index@.contains_key(
                    *(#[trigger] pairs[k]).0,
                ),
            forall|i: u64| #[trigger]
                self.by_storage_index@.contains_key(i) ==> pairs.contains(
                    (&i, &self.by_storage_index@[i]),
                ),
        ensures
            pairs.map_values(|kv: (&u64, &H256)| *kv.0) == self@.order(),
    {
        broadcast use vstd::laws_cmp::group_laws_cmp;

        let keys = pairs.map_values(|kv: (&u64, &H256)| *kv.0);
        assert forall|i: int, j: int| 0 <= i < j < keys.len() implies keys[i] < keys[j] by {
            assert(vstd::std_specs::btree::increasing_seq(keys));
            assert(vstd::laws_cmp::obeys_cmp::<u64>());
            assert(vstd::std_specs::cmp::OrdSpec::cmp_spec(&keys[i], &keys[j]) is Less);
        }
        assert(keys.to_set() =~= self@.by_storage_index.dom()) by {
            assert forall|i: u64| self@.by_storage_index.dom().contains(i) implies keys.contains(
                i,
            ) by {
                let k = choose|k: int|
                    0 <= k < pairs.len() && pairs[k] == (&i, &self.by_storage_index@[i]);
                assert(keys[k] == i);
            }
        }
        order::lemma_in_order_unique(keys);
    }

    /// get size/length
    pub fn len(&self) -> (n: usize)
        ensures
            n == self@.by_hash.dom().len(),
    {
        assert(self@.by_hash.dom() =~= self.by_hash@.dom());
        self.by_hash.len()
    }
}

} // verus!
