//! What the operations of a memory pool keep, undo and leave alone.

use crate::crypto::hash::H256;
use crate::miner::pool_view::{self, PoolView};
use crate::order;
use crate::transaction::{CoinId, Input, Output, TransactionView};
use vstd::prelude::*;

verus! {

impl PoolView {
    /// A new pool is consistent.
    pub proof fn lemma_empty_consistent(max_transactions: nat)
        ensures
            PoolView::empty(max_transactions).consistent(),
            PoolView::empty(max_transactions).keyed_by_hash(),
            PoolView::empty(max_transactions).queue().len() == 0,
    {
        let pool = PoolView::empty(max_transactions);
        assert(pool.by_storage_index.dom() =~= Set::<u64>::empty());
        assert(pool.by_hash.dom() =~= Set::<H256>::empty());
        order::lemma_in_order(pool.by_storage_index.dom());
    }

    /// A pool never holds more transactions than its limit, and nothing changes the limit.
    pub proof fn lemma_limit(
        self,
        hash: H256,
        transaction: TransactionView,
        queue: Seq<Input>,
    )
        requires
            self.valid(),
        ensures
            self.by_hash.dom().len() <= self.max_transactions,
            self.insert(hash, transaction).max_transactions == self.max_transactions,
            self.remove(hash).max_transactions == self.max_transactions,
            self.remove_spenders(queue) matches Some(after) ==> after.max_transactions
                == self.max_transactions,
        decreases self.by_hash.dom().len(), queue.len(),
    {
        if queue.len() > 0 {
            let rest = queue.drop_first();
            if !self.by_input.contains_key(queue[0]) {
                self.lemma_limit(hash, transaction, rest);
            } else {
                let spender = self.by_input[queue[0]];
                if self.by_hash.contains_key(spender) {
                    self.lemma_remove_valid(spender);
                    self.remove(spender).lemma_limit(
                        hash,
                        transaction,
                        rest + pool_view::coins(
                            spender,
                            self.by_hash[spender].transaction.output,
                        ),
                    );
                }
            }
        }
    }

    /// Inserting a transaction that passes the two checks (its hash is not in the pool, and none
    /// of its inputs is recorded) keeps the pool consistent.
    pub proof fn lemma_insert_consistent(self, hash: H256, transaction: TransactionView)
        requires
            self.consistent(),
            self.counter < u64::MAX,
            self.admits(hash, transaction),
        ensures
            self.insert(hash, transaction).consistent(),
    {
        self.lemma_insert_valid(hash, transaction);
        if !self.full() {
            let after = self.insert(hash, transaction);
            assert(after.by_hash.dom() =~= self.by_hash.dom().insert(hash));
            assert forall|x: Input|
                transaction.input.contains(x) implies !self.by_input.contains_key(x) by {
                let i = choose|i: int|
                    0 <= i < transaction.input.len() && transaction.input[i] == x;
                assert(!self.by_input.contains_key(transaction.input[i]));
            }
            assert forall|h: H256, x: Input|
                #![trigger after.by_hash[h].transaction.input.contains(x)]
                after.by_hash.contains_key(h) && after.by_hash[h].transaction.input.contains(
                    x,
                ) implies after.by_input.contains_key(x) && after.by_input[x] == h by {
                if h != hash {
                    assert(self.by_hash[h].transaction.input.contains(x));
                    assert(self.by_input.contains_key(x));
                }
            }
            assert forall|x: Input| #[trigger]
                after.by_input.contains_key(x) implies after.by_hash.contains_key(
                after.by_input[x],
            ) && after.by_hash[after.by_input[x]].transaction.input.contains(x) by {
                if !transaction.input.contains(x) {
                    assert(self.by_input.contains_key(x));
                }
            }
        }
    }

    /// In a consistent pool, taking an entry out takes out what belongs to it and nothing else.
    pub proof fn lemma_remove_is_without(self, hash: H256)
        requires
            self.consistent(),
        ensures
            self.remove(hash) == self.without(set![hash]),
            self.remove(hash).consistent(),
    {
        self.lemma_remove_valid(hash);
        let after = self.remove(hash);
        let alone = self.without(set![hash]);
        if self.by_hash.contains_key(hash) {
            let entry = self.by_hash[hash];
            assert(after.by_hash =~= alone.by_hash);
            assert(after.by_input =~= alone.by_input) by {
                assert forall|x: Input| self.by_input.contains_key(x) implies (self.by_input[x]
                    == hash) == entry.transaction.input.to_set().contains(x) by {
                    assert(self.by_hash[self.by_input[x]].transaction.input.contains(x));
                }
            }
            assert(after.by_storage_index =~= alone.by_storage_index);
            assert(after =~= alone);
            assert forall|h: H256, x: Input|
                #![trigger after.by_hash[h].transaction.input.contains(x)]
                after.by_hash.contains_key(h) && after.by_hash[h].transaction.input.contains(
                    x,
                ) implies after.by_input.contains_key(x) && after.by_input[x] == h by {
                assert(self.by_hash[h].transaction.input.contains(x));
            }
            assert(after.consistent());
        } else {
            assert(alone.by_hash =~= self.by_hash);
            assert(alone.by_input =~= self.by_input);
            assert(alone.by_storage_index =~= self.by_storage_index);
            assert(alone =~= self);
        }
    }

    /// The dependents of `roots` are closed under spending, and every other such set holds them.
    pub proof fn lemma_dependents_least(self, roots: Set<Input>)
        ensures
            self.closed_under_spending(roots, self.dependents(roots)),
            forall|doomed: Set<H256>| #[trigger]
                self.closed_under_spending(roots, doomed) ==> self.dependents(roots).subset_of(
                    doomed,
                ),
    {
        let least = self.dependents(roots);
        assert forall|x: Input| #[trigger]
            roots.contains(x) && self.by_input.contains_key(x) implies least.contains(
            self.by_input[x],
        ) by {
            assert forall|doomed: Set<H256>| #[trigger]
                self.closed_under_spending(roots, doomed) implies doomed.contains(
                self.by_input[x],
            ) by {
                assert(roots.contains(x));
            }
        }
        assert forall|h: H256, x: Input|
            #![trigger least.contains(h), self.by_input.contains_key(x)]
            least.contains(h) && self.by_hash.contains_key(h) && pool_view::coins(
                h,
                self.by_hash[h].transaction.output,
            ).contains(x) && self.by_input.contains_key(x) implies least.contains(
            self.by_input[x],
        ) by {
            assert forall|doomed: Set<H256>| #[trigger]
                self.closed_under_spending(roots, doomed) implies doomed.contains(
                self.by_input[x],
            ) by {
                assert(doomed.contains(h));
            }
        }
    }

    /// In a consistent pool, removing the spenders of the queued inputs always comes to an end
    /// with a result. It takes out the dependents of those inputs and nothing else, and leaves a
    /// consistent pool.
    pub proof fn lemma_remove_spenders(self, queue: Seq<Input>)
        requires
            self.consistent(),
        ensures
            self.remove_spenders(queue) == Some(self.without(self.dependents(queue.to_set()))),
            self.without(self.dependents(queue.to_set())).consistent(),
        decreases self.by_hash.dom().len(), queue.len(),
    {
        let roots = queue.to_set();
        let gone = self.dependents(roots);
        self.lemma_dependents_least(roots);
        if queue.len() == 0 {
            assert(self.closed_under_spending(roots, Set::empty()));
            assert(gone =~= Set::empty());
            assert(self.without(gone).by_hash =~= self.by_hash);
            assert(self.without(gone).by_input =~= self.by_input);
            assert(self.without(gone).by_storage_index =~= self.by_storage_index);
            assert(self.without(gone) =~= self);
        } else {
            let x = queue[0];
            let rest = queue.drop_first();
            if !self.by_input.contains_key(x) {
                self.lemma_remove_spenders(rest);
                let gone1 = self.dependents(rest.to_set());
                Self::lemma_roots_split(queue);
                self.lemma_dependents_least(rest.to_set());
                assert(self.closed_under_spending(rest.to_set(), gone)) by {
                    assert forall|y: Input| #[trigger]
                        rest.to_set().contains(y) && self.by_input.contains_key(
                            y,
                        ) implies gone.contains(self.by_input[y]) by {
                        assert(roots.contains(y));
                    }
                }
                assert(self.closed_under_spending(roots, gone1)) by {
                    assert forall|y: Input| #[trigger]
                        roots.contains(y) && self.by_input.contains_key(y) implies gone1.contains(
                        self.by_input[y],
                    ) by {
                        assert(rest.to_set().contains(y));
                    }
                }
                assert(gone.subset_of(gone1) && gone1.subset_of(gone));
                assert(gone =~= gone1);
            } else {
                let hash = self.by_input[x];
                let made = pool_view::coins(
                    hash,
                    self.by_hash[hash].transaction.output,
                );
                let left = self.remove(hash);
                let queue1 = rest + made;
                self.lemma_remove_valid(hash);
                self.lemma_remove_is_without(hash);
                left.lemma_remove_spenders(queue1);
                self.lemma_dependents_step(queue);
                let gone1 = left.dependents(queue1.to_set());
                left.lemma_dependents_least(queue1.to_set());
                assert(self.without(gone) =~= left.without(gone1)) by {
                    assert(self.without(gone).by_hash =~= left.without(gone1).by_hash);
                    assert(self.without(gone).by_input =~= left.without(gone1).by_input);
                    assert(self.without(gone).by_storage_index
                        =~= left.without(gone1).by_storage_index);
                }
            }
        }
    }

    /// Where no transaction was put in twice, every number of transactions can be listed, and the
    /// list is as long as the pool.
    pub proof fn lemma_listable(self, n: nat)
        requires
            self.valid(),
            self.indexed(),
        ensures
            self.listable(n),
            self.queue().len() == self.num_transactions,
    {
        order::lemma_in_order(self.by_storage_index.dom());
        assert forall|k: int| 0 <= k < self.order().len() implies self.by_hash.contains_key(
            self.by_storage_index[#[trigger] self.order()[k]],
        ) by {
            assert(self.order().to_set().contains(self.order()[k]));
            assert(self.by_storage_index.contains_key(self.order()[k]));
        }
        let f = |i: u64| self.by_storage_index[i];
        let indices = self.by_storage_index.dom();
        assert(indices.map(f) =~= self.by_hash.dom()) by {
            assert forall|h: H256| self.by_hash.contains_key(h) implies indices.map(f).contains(
                h,
            ) by {
                let i = self.by_hash[h].storage_index;
                assert(self.by_storage_index.contains_key(i) && f(i) == h);
            }
            assert forall|h: H256| indices.map(f).contains(h) implies self.by_hash.contains_key(
                h,
            ) by {
                let i = choose|i: u64| indices.contains(i) && h == f(i);
                assert(self.by_storage_index.contains_key(i));
            }
        }
        assert(vstd::relations::injective_on(f, indices)) by {
            assert forall|i: u64, j: u64|
                indices.contains(i) && indices.contains(j) && #[trigger] f(i) == #[trigger] f(
                    j,
                ) implies i == j by {
                assert(self.by_storage_index.contains_key(i));
                assert(self.by_storage_index.contains_key(j));
            }
        }
        vstd::set_lib::lemma_map_size(indices, self.by_hash.dom(), f);
    }

    /// First in, first out: a transaction that is put into the pool comes after all that were
    /// there, which keep their order.
    pub proof fn lemma_queue_insert(self, hash: H256, transaction: TransactionView)
        requires
            self.valid(),
            self.indexed(),
            self.counter < u64::MAX,
            !self.full(),
            !self.by_hash.contains_key(hash),
        ensures
            self.insert(hash, transaction).queue() == self.queue().push(transaction),
    {
        let after = self.insert(hash, transaction);
        let next = self.counter as u64;
        order::lemma_in_order(self.by_storage_index.dom());
        assert forall|i: u64| #[trigger] self.by_storage_index.dom().contains(i) implies i
            < next by {
            assert(self.by_storage_index.contains_key(i));
        }
        assert(after.by_storage_index.dom() =~= self.by_storage_index.dom().insert(next));
        order::lemma_in_order_append(self.by_storage_index.dom(), next);
        assert forall|k: int| 0 <= k < self.order().len() implies after.queue()[k]
            == self.queue()[k] by {
            let i = self.order()[k];
            assert(self.order().to_set().contains(i));
            assert(self.by_storage_index.contains_key(i));
            assert(after.order()[k] == i);
        }
        assert(after.queue() =~= self.queue().push(transaction));
    }

    /// Taking transactions out leaves the others in their order: what is listed are the storage
    /// indices that were listed before, but for those of the transactions that are gone.
    pub proof fn lemma_queue_without(self, gone: Set<H256>)
        requires
            self.valid(),
            self.indexed(),
        ensures
            self.without(gone).order() == self.order().filter(
                |i: u64| !gone.contains(self.by_storage_index[i]),
            ),
            forall|i: u64| #[trigger]
                self.without(gone).by_storage_index.contains_key(i) ==> {
                    &&& self.without(gone).by_storage_index[i] == self.by_storage_index[i]
                    &&& self.without(gone).by_hash[self.by_storage_index[i]]
                        == self.by_hash[self.by_storage_index[i]]
                },
    {
        let keep = |i: u64| !gone.contains(self.by_storage_index[i]);
        order::lemma_in_order_filter(self.by_storage_index.dom(), keep);
        assert(self.without(gone).by_storage_index.dom()
            =~= self.by_storage_index.dom().filter(keep));
    }

    /// Removing a transaction right after it was put into a consistent pool that had room undoes
    /// all but the count of storage indices.
    pub proof fn lemma_insert_remove(self, hash: H256, transaction: TransactionView)
        requires
            self.consistent(),
            self.counter < u64::MAX,
            !self.full(),
            self.admits(hash, transaction),
        ensures
            self.insert(hash, transaction).remove(hash) == (PoolView {
                counter: self.counter + 1,
                ..self
            }),
    {
        let after = self.insert(hash, transaction).remove(hash);
        assert forall|x: Input| transaction.input.contains(x) implies !self.by_input.contains_key(
            x,
        ) by {
            let i = choose|i: int| 0 <= i < transaction.input.len() && transaction.input[i] == x;
            assert(!self.by_input.contains_key(transaction.input[i]));
        }
        assert(!self.by_storage_index.contains_key(self.counter as u64));
        assert(after.by_hash =~= self.by_hash);
        assert(after.by_input =~= self.by_input);
        assert(after.by_storage_index =~= self.by_storage_index);
    }

    /// Once a transaction is in, its hash is found, and whatever spends one of its inputs is a
    /// double spend.
    pub proof fn lemma_insert_recorded(
        self,
        hash: H256,
        transaction: TransactionView,
        inputs: Seq<Input>,
    )
        requires
            !self.full(),
        ensures
            self.insert(hash, transaction).by_hash.contains_key(hash),
            self.insert(hash, transaction).by_hash[hash].transaction == transaction,
            self.insert(hash, transaction).is_double_spend(inputs) <==> self.is_double_spend(
                inputs,
            ) || exists|i: int|
                0 <= i < inputs.len() && transaction.input.contains(#[trigger] inputs[i]),
    {
        let after = self.insert(hash, transaction);
        assert forall|i: int| 0 <= i < inputs.len() implies after.by_input.contains_key(
            #[trigger] inputs[i],
        ) == (self.by_input.contains_key(inputs[i]) || transaction.input.contains(inputs[i])) by {}
    }

    /// Once a transaction is out, its hash is not found, and its inputs can be spent again.
    pub proof fn lemma_remove_forgotten(self, hash: H256)
        requires
            self.by_hash.contains_key(hash),
        ensures
            !self.remove(hash).by_hash.contains_key(hash),
            !self.remove(hash).is_double_spend(self.by_hash[hash].transaction.input),
    {
        let inputs = self.by_hash[hash].transaction.input;
        assert forall|i: int| 0 <= i < inputs.len() implies !self.remove(
            hash,
        ).by_input.contains_key(#[trigger] inputs[i]) by {
            assert(inputs.to_set().contains(inputs[i]));
        }
    }

    /// No two transactions of a consistent pool spend the same input.
    pub proof fn lemma_no_double_spend(self, first: H256, second: H256, x: Input)
        requires
            self.consistent(),
            self.by_hash.contains_key(first),
            self.by_hash.contains_key(second),
            self.by_hash[first].transaction.input.contains(x),
            self.by_hash[second].transaction.input.contains(x),
        ensures
            first == second,
    {
    }

    /// Removing by an input leaves nothing that spends that input, or a coin that a removed
    /// transaction made.
    pub proof fn lemma_nothing_spends(self, prevout: Input, x: Input)
        requires
            self.consistent(),
            x == prevout || exists|h: H256|
                #![trigger self.by_hash[h]]
                self.by_hash.contains_key(h) && self.dependents(set![prevout]).contains(h)
                    && pool_view::coins(
                    h,
                    self.by_hash[h].transaction.output,
                ).contains(x),
        ensures
            !self.without(self.dependents(set![prevout])).by_input.contains_key(x),
    {
        self.lemma_dependents_least(set![prevout]);
        assert(set![prevout].contains(prevout));
    }

    /// Where every entry stands under the hash of its transaction, inserting a transaction under
    /// its hash keeps it so.
    pub proof fn lemma_insert_keyed_by_hash(self, transaction: TransactionView)
        requires
            self.keyed_by_hash(),
        ensures
            self.insert(transaction.hash(), transaction).keyed_by_hash(),
    {
    }

    /// Inserting under a hash that is not in the pool keeps the storage indices and the entries
    /// in step, whatever the transaction spends.
    pub proof fn lemma_insert_indexed(self, hash: H256, transaction: TransactionView)
        requires
            self.valid(),
            self.indexed(),
            self.counter < u64::MAX,
            !self.by_hash.contains_key(hash),
        ensures
            self.insert(hash, transaction).indexed(),
    {
        let after = self.insert(hash, transaction);
        if !self.full() {
            assert(after.by_hash.dom() =~= self.by_hash.dom().insert(hash));
        }
    }

    /// Inserting keeps the recorded spenders in the pool, be it a double spend or the same
    /// transaction again.
    pub proof fn lemma_insert_spenders_known(self, hash: H256, transaction: TransactionView)
        requires
            self.spenders_known(),
            self.agrees(hash, transaction),
        ensures
            self.insert(hash, transaction).spenders_known(),
    {
        let after = self.insert(hash, transaction);
        assert forall|x: Input| #[trigger] after.by_input.contains_key(
            x,
        ) implies after.by_hash.contains_key(after.by_input[x])
            && after.by_hash[after.by_input[x]].transaction.input.contains(x) by {
            if !transaction.input.contains(x) || self.full() {
                assert(self.by_input.contains_key(x));
            }
        }
    }

    /// What inserting keeps of a pool, by what is checked of the transaction.
    pub proof fn lemma_insert_keeps(self, hash: H256, transaction: TransactionView)
        requires
            self.valid(),
            self.full() || self.counter < u64::MAX,
        ensures
            self.consistent() && self.admits(hash, transaction) ==> self.insert(
                hash,
                transaction,
            ).consistent(),
            self.indexed() && !self.by_hash.contains_key(hash) ==> self.insert(
                hash,
                transaction,
            ).indexed(),
            self.spenders_known() && self.agrees(hash, transaction) ==> self.insert(
                hash,
                transaction,
            ).spenders_known(),
    {
        if !self.full() {
            if self.consistent() && self.admits(hash, transaction) {
                self.lemma_insert_consistent(hash, transaction);
            }
            if self.indexed() && !self.by_hash.contains_key(hash) {
                self.lemma_insert_indexed(hash, transaction);
            }
            if self.spenders_known() && self.agrees(hash, transaction) {
                self.lemma_insert_spenders_known(hash, transaction);
            }
        }
    }

    /// Removing keeps the storage indices and the entries in step, the recorded spenders in the
    /// pool, and the entries under the hashes of their transactions.
    pub proof fn lemma_remove_keeps(self, hash: H256)
        requires
            self.valid(),
        ensures
            self.indexed() ==> self.remove(hash).indexed(),
            self.spenders_known() ==> self.remove(hash).spenders_known(),
            self.keyed_by_hash() ==> self.remove(hash).keyed_by_hash(),
    {
        self.lemma_remove_valid(hash);
        if self.by_hash.contains_key(hash) {
            let after = self.remove(hash);
            let inputs = self.by_hash[hash].transaction.input;
            if self.spenders_known() {
                assert forall|x: Input| #[trigger] after.by_input.contains_key(
                    x,
                ) implies after.by_hash.contains_key(after.by_input[x])
                    && after.by_hash[after.by_input[x]].transaction.input.contains(x) by {
                    assert(self.by_input.contains_key(x));
                    assert(!inputs.to_set().contains(x));
                }
            }
        }
    }

    /// Where the recorded spenders are in the pool, removing spenders comes to an end with a
    /// result, and keeps what removing keeps.
    pub proof fn lemma_remove_spenders_keeps(self, queue: Seq<Input>)
        requires
            self.valid(),
        ensures
            self.spenders_known() ==> self.remove_spenders(queue) is Some,
            self.remove_spenders(queue) matches Some(after) ==> {
                &&& after.valid()
                &&& self.indexed() ==> after.indexed()
                &&& self.spenders_known() ==> after.spenders_known()
                &&& self.keyed_by_hash() ==> after.keyed_by_hash()
            },
        decreases self.by_hash.dom().len(), queue.len(),
    {
        if queue.len() > 0 {
            let rest = queue.drop_first();
            if !self.by_input.contains_key(queue[0]) {
                self.lemma_remove_spenders_keeps(rest);
            } else {
                let hash = self.by_input[queue[0]];
                if self.by_hash.contains_key(hash) {
                    self.lemma_remove_valid(hash);
                    self.lemma_remove_keeps(hash);
                    self.remove(hash).lemma_remove_spenders_keeps(
                        rest + pool_view::coins(
                            hash,
                            self.by_hash[hash].transaction.output,
                        ),
                    );
                }
            }
        }
    }

    proof fn lemma_roots_split(queue: Seq<Input>)
        requires
            queue.len() > 0,
        ensures
            forall|y: Input|
                #![trigger queue.to_set().contains(y)]
                #![trigger queue.drop_first().to_set().contains(y)]
                queue.to_set().contains(y) == (y == queue[0]
                    || queue.drop_first().to_set().contains(y)),
    {
        let rest = queue.drop_first();
        assert forall|y: Input|
            #![trigger queue.to_set().contains(y)]
            #![trigger rest.to_set().contains(y)]
            queue.to_set().contains(y) == (y == queue[0] || rest.to_set().contains(y)) by {
            if queue.to_set().contains(y) {
                let i = choose|i: int| 0 <= i < queue.len() && queue[i] == y;
                if i > 0 {
                    assert(rest[i - 1] == y);
                }
            }
            if rest.to_set().contains(y) {
                let i = choose|i: int| 0 <= i < rest.len() && rest[i] == y;
                assert(queue[i + 1] == y);
            }
        }
    }

    /// The dependents of a queue whose head is spent: the spender, and what depends, once it is
    /// out, on the rest of the queue and on the coins that it made.
    proof fn lemma_dependents_step(self, queue: Seq<Input>)
        requires
            self.consistent(),
            queue.len() > 0,
            self.by_input.contains_key(queue[0]),
        ensures
            ({
                let hash = self.by_input[queue[0]];
                let made = pool_view::coins(
                    hash,
                    self.by_hash[hash].transaction.output,
                );
                self.dependents(queue.to_set()) == self.remove(hash).dependents(
                    (queue.drop_first() + made).to_set(),
                ).insert(hash)
            }),
    {
        let x = queue[0];
        let rest = queue.drop_first();
        let hash = self.by_input[x];
        let made = pool_view::coins(hash, self.by_hash[hash].transaction.output);
        let left = self.remove(hash);
        let queue1 = rest + made;
        let (roots, roots1) = (queue.to_set(), queue1.to_set());
        let (gone, gone1) = (self.dependents(roots), left.dependents(roots1));
        Self::lemma_roots_split(queue);
        self.lemma_remove_is_without(hash);
        self.lemma_dependents_least(roots);
        left.lemma_dependents_least(roots1);
        assert forall|y: Input| #[trigger]
            roots1.contains(y) == (rest.to_set().contains(y) || made.contains(y)) by {
            if rest.contains(y) {
                let i = choose|i: int| 0 <= i < rest.len() && rest[i] == y;
                assert(queue1[i] == y);
            }
            if made.contains(y) {
                let i = choose|i: int| 0 <= i < made.len() && made[i] == y;
                assert(queue1[rest.len() + i] == y);
            }
            if queue1.contains(y) {
                let i = choose|i: int| 0 <= i < queue1.len() && queue1[i] == y;
                if i < rest.len() {
                    assert(rest[i] == y);
                } else {
                    assert(made[i - rest.len()] == y);
                }
            }
        }
        // what is recorded once the spender is out is what was recorded for another transaction
        assert forall|y: Input| #[trigger] left.by_input.contains_key(y) == (
        self.by_input.contains_key(y) && self.by_input[y] != hash) by {}
        assert forall|y: Input| #[trigger] left.by_input.contains_key(y) implies left.by_input[y]
            == self.by_input[y] by {}
        let all = gone1.insert(hash);
        assert(self.closed_under_spending(roots, all)) by {
            assert forall|y: Input| #[trigger]
                roots.contains(y) && self.by_input.contains_key(y) implies all.contains(
                self.by_input[y],
            ) by {
                if self.by_input[y] != hash {
                    assert(left.by_input.contains_key(y));
                    assert(roots1.contains(y));
                }
            }
            assert forall|h: H256, y: Input|
                #![trigger all.contains(h), self.by_input.contains_key(y)]
                all.contains(h) && self.by_hash.contains_key(h) && pool_view::coins(
                    h,
                    self.by_hash[h].transaction.output,
                ).contains(y) && self.by_input.contains_key(y) implies all.contains(
                self.by_input[y],
            ) by {
                if self.by_input[y] != hash {
                    assert(left.by_input.contains_key(y));
                    if h == hash {
                        assert(made.contains(y));
                        assert(roots1.contains(y));
                    } else {
                        assert(gone1.contains(h));
                        assert(left.by_hash.contains_key(h));
                    }
                }
            }
        }
        assert(gone.subset_of(all));
        assert(roots.contains(x));
        assert(gone.contains(hash));
        assert(left.closed_under_spending(roots1, gone)) by {
            assert forall|y: Input| #[trigger]
                roots1.contains(y) && left.by_input.contains_key(y) implies gone.contains(
                left.by_input[y],
            ) by {
                assert(self.by_input.contains_key(y));
                if rest.to_set().contains(y) {
                    assert(roots.contains(y));
                } else {
                    assert(made.contains(y));
                    assert(gone.contains(hash));
                }
            }
            assert forall|h: H256, y: Input|
                #![trigger gone.contains(h), left.by_input.contains_key(y)]
                gone.contains(h) && left.by_hash.contains_key(h) && pool_view::coins(
                    h,
                    left.by_hash[h].transaction.output,
                ).contains(y) && left.by_input.contains_key(y) implies gone.contains(
                left.by_input[y],
            ) by {
                assert(self.by_input.contains_key(y));
            }
        }
        assert(gone1.subset_of(gone));
        assert(gone =~= all);
    }

    /// A pool that counts fewer transactions than its limit takes the next one: it is found under
    /// its hash and at the end of the storage indices, each of its inputs is recorded for it, and
    /// it is counted. All that has to do with other hashes and other inputs stays.
    pub proof fn lemma_room_is_used(self, hash: H256, transaction: TransactionView)
        requires
            self.num_transactions < self.max_transactions,
            self.counter <= u64::MAX,
        ensures
            ({
                let after = self.insert(hash, transaction);
                &&& after.num_transactions == self.num_transactions + 1
                &&& after.max_transactions == self.max_transactions
                &&& after.counter == self.counter + 1
                &&& after.by_hash.contains_key(hash)
                &&& after.by_hash[hash].transaction == transaction
                &&& after.by_hash[hash].storage_index == self.counter
                &&& forall|h: H256|
                    h != hash ==> {
                        &&& (#[trigger] after.by_hash.contains_key(h))
                            == self.by_hash.contains_key(h)
                        &&& after.by_hash[h] == self.by_hash[h]
                    }
                &&& forall|i: int|
                    0 <= i < transaction.input.len() ==> {
                        &&& after.by_input.contains_key(#[trigger] transaction.input[i])
                        &&& after.by_input[transaction.input[i]] == hash
                    }
                &&& forall|x: Input|
                    !transaction.input.contains(x) ==> {
                        &&& (#[trigger] after.by_input.contains_key(x))
                            == self.by_input.contains_key(x)
                        &&& after.by_input.contains_key(x) ==> after.by_input[x]
                            == self.by_input[x]
                    }
                &&& after.by_storage_index.contains_key(self.counter as u64)
                &&& after.by_storage_index[self.counter as u64] == hash
                &&& forall|i: u64|
                    i != self.counter ==> {
                        &&& (#[trigger] after.by_storage_index.contains_key(i))
                            == self.by_storage_index.contains_key(i)
                        &&& after.by_storage_index[i] == self.by_storage_index[i]
                    }
            }),
    {
        let after = self.insert(hash, transaction);
        assert forall|i: int| 0 <= i < transaction.input.len() implies after.by_input.contains_key(
            #[trigger] transaction.input[i],
        ) && after.by_input[transaction.input[i]] == hash by {
            assert(transaction.input.contains(transaction.input[i]));
        }
    }

    /// A pool that counts as many transactions as its limit stays as it is.
    pub proof fn lemma_no_room(self, hash: H256, transaction: TransactionView)
        requires
            self.num_transactions >= self.max_transactions,
        ensures
            self.insert(hash, transaction) == self,
    {
    }

    /// A new pool holds nothing, has nothing recorded, and has the limit that it was made with.
    pub proof fn lemma_new_pool(limit: nat, h: H256, x: Input, i: u64)
        ensures
            ({
                let pool = PoolView::empty(limit);
                &&& pool.num_transactions == 0
                &&& pool.max_transactions == limit
                &&& pool.counter == 0
                &&& !pool.by_hash.contains_key(h)
                &&& !pool.by_input.contains_key(x)
                &&& !pool.by_storage_index.contains_key(i)
            }),
    {
    }

    /// Taking a transaction out takes its hash, its inputs and its storage index out, and counts
    /// one less. All that has to do with other hashes, inputs and indices stays.
    pub proof fn lemma_taken_out(self, hash: H256)
        requires
            self.num_transactions > 0,
            self.by_hash.contains_key(hash),
        ensures
            ({
                let after = self.remove(hash);
                let entry = self.by_hash[hash];
                &&& after.num_transactions + 1 == self.num_transactions
                &&& after.max_transactions == self.max_transactions
                &&& after.counter == self.counter
                &&& !after.by_hash.contains_key(hash)
                &&& forall|h: H256|
                    h != hash ==> {
                        &&& (#[trigger] after.by_hash.contains_key(h))
                            == self.by_hash.contains_key(h)
                        &&& after.by_hash[h] == self.by_hash[h]
                    }
                &&& forall|i: int|
                    0 <= i < entry.transaction.input.len() ==> !after.by_input.contains_key(
                        #[trigger] entry.transaction.input[i],
                    )
                &&& forall|x: Input|
                    !entry.transaction.input.contains(x) ==> {
                        &&& (#[trigger] after.by_input.contains_key(x))
                            == self.by_input.contains_key(x)
                        &&& after.by_input.contains_key(x) ==> after.by_input[x]
                            == self.by_input[x]
                    }
                &&& !after.by_storage_index.contains_key(entry.storage_index)
                &&& forall|i: u64|
                    i != entry.storage_index ==> {
                        &&& (#[trigger] after.by_storage_index.contains_key(i))
                            == self.by_storage_index.contains_key(i)
                        &&& after.by_storage_index[i] == self.by_storage_index[i]
                    }
            }),
    {
        let after = self.remove(hash);
        let inputs = self.by_hash[hash].transaction.input;
        assert forall|i: int| 0 <= i < inputs.len() implies !after.by_input.contains_key(
            #[trigger] inputs[i],
        ) by {
            assert(inputs.to_set().contains(inputs[i]));
        }
        assert forall|x: Input| !inputs.contains(x) implies (#[trigger] after.by_input.contains_key(
            x,
        )) == self.by_input.contains_key(x) && (after.by_input.contains_key(x)
            ==> after.by_input[x] == self.by_input[x]) by {
            assert(!inputs.to_set().contains(x));
        }
    }

    /// Taking a hash out that is not there changes nothing.
    pub proof fn lemma_nothing_taken_out(self, hash: H256)
        requires
            !self.by_hash.contains_key(hash),
        ensures
            self.remove(hash) == self,
    {
    }

    /// Inputs are a double spend in a consistent pool exactly when a transaction of the pool has
    /// one of them.
    pub proof fn lemma_double_spend_is_spent(self, inputs: Seq<Input>)
        requires
            self.consistent(),
        ensures
            self.is_double_spend(inputs) <==> exists|h: H256, i: int|
                #![trigger self.by_hash.contains_key(h), inputs[i]]
                self.by_hash.contains_key(h) && 0 <= i < inputs.len()
                    && self.by_hash[h].transaction.input.contains(inputs[i]),
    {
        if self.is_double_spend(inputs) {
            let i = choose|i: int|
                0 <= i < inputs.len() && self.by_input.contains_key(#[trigger] inputs[i]);
            let h = self.by_input[inputs[i]];
            assert(self.by_hash.contains_key(h) && self.by_hash[h].transaction.input.contains(
                inputs[i],
            ));
        }
        if exists|h: H256, i: int|
            #![trigger self.by_hash.contains_key(h), inputs[i]]
            self.by_hash.contains_key(h) && 0 <= i < inputs.len()
                && self.by_hash[h].transaction.input.contains(inputs[i]) {
            let (h, i) = choose|h: H256, i: int|
                #![trigger self.by_hash.contains_key(h), inputs[i]]
                self.by_hash.contains_key(h) && 0 <= i < inputs.len()
                    && self.by_hash[h].transaction.input.contains(inputs[i]);
            assert(self.by_input.contains_key(inputs[i]));
        }
    }

    /// Inputs are a double spend exactly when one of them is recorded.
    pub proof fn lemma_double_spend_is_recorded(self, inputs: Seq<Input>)
        ensures
            !self.is_double_spend(inputs) <==> forall|i: int|
                0 <= i < inputs.len() ==> !self.by_input.contains_key(#[trigger] inputs[i]),
    {
    }

    /// Inserting a transaction whose hash is not in the pool and whose inputs are not recorded
    /// keeps the pool consistent.
    pub proof fn lemma_checked_insert(self, hash: H256, transaction: TransactionView)
        requires
            self.consistent(),
            self.counter < u64::MAX,
            !self.by_hash.contains_key(hash),
            forall|i: int|
                0 <= i < transaction.input.len() ==> !self.by_input.contains_key(
                    #[trigger] transaction.input[i],
                ),
        ensures
            self.insert(hash, transaction).consistent(),
    {
        self.lemma_insert_consistent(hash, transaction);
    }

    /// Inserting keeps the recorded spenders in the pool where the hash is new, or where the
    /// transaction that has the hash spends the same.
    pub proof fn lemma_spenders_stay_known(self, hash: H256, transaction: TransactionView)
        requires
            self.spenders_known(),
            !self.by_hash.contains_key(hash) || self.by_hash[hash].transaction.input
                == transaction.input,
        ensures
            self.insert(hash, transaction).spenders_known(),
    {
        self.lemma_insert_spenders_known(hash, transaction);
    }

    /// Where every entry stands under the hash of its transaction, what is found under a hash has
    /// that hash.
    pub proof fn lemma_found_has_hash(self, h: H256)
        requires
            self.keyed_by_hash(),
            self.by_hash.contains_key(h),
        ensures
            self.by_hash[h].transaction.hash() == h,
    {
    }

    /// In a consistent pool the three tables tell the same: a transaction is under its hash, under
    /// its storage index, and under each of its inputs, and nothing else is in the tables.
    pub proof fn lemma_tables_agree(self, h: H256, x: Input, i: u64)
        requires
            self.consistent(),
        ensures
            self.num_transactions == self.by_hash.dom().len(),
            self.num_transactions <= self.max_transactions,
            self.by_hash.contains_key(h) && self.by_hash[h].transaction.input.contains(x)
                <==> self.by_input.contains_key(x) && self.by_input[x] == h,
            self.by_hash.contains_key(h) && self.by_hash[h].storage_index == i
                <==> self.by_storage_index.contains_key(i) && self.by_storage_index[i] == h,
            self.by_storage_index.contains_key(i) ==> i < self.counter,
    {
    }

    /// Removing spenders only takes out: what is left is as it was, and the count goes down with
    /// the entries. Where the recorded spenders are in the pool, nothing stays recorded for a
    /// queued input, nor for a coin that any output of a transaction that was taken out made.
    pub proof fn lemma_spenders_taken_out(self, queue: Seq<Input>)
        requires
            self.valid(),
            self.spenders_known(),
        ensures
            self.remove_spenders(queue) matches Some(after) && {
                &&& after.max_transactions == self.max_transactions
                &&& after.counter == self.counter
                &&& self.num_transactions - after.num_transactions == self.by_hash.dom().len()
                    - after.by_hash.dom().len()
                &&& forall|h: H256| #[trigger]
                    after.by_hash.contains_key(h) ==> self.by_hash.contains_key(h)
                        && after.by_hash[h] == self.by_hash[h]
                &&& forall|x: Input| #[trigger]
                    after.by_input.contains_key(x) ==> self.by_input.contains_key(x)
                        && after.by_input[x] == self.by_input[x]
                &&& forall|i: u64| #[trigger]
                    after.by_storage_index.contains_key(i) ==> self.by_storage_index.contains_key(
                        i,
                    ) && after.by_storage_index[i] == self.by_storage_index[i]
                &&& forall|k: int|
                    0 <= k < queue.len() ==> !after.by_input.contains_key(#[trigger] queue[k])
                &&& forall|h: H256, i: int|
                    #![trigger self.by_hash[h].transaction.output[i]]
                    self.by_hash.contains_key(h) && !after.by_hash.contains_key(h) && 0 <= i
                        < self.by_hash[h].transaction.output.len() ==> !after.by_input.contains_key(
                        Input {
                            coin: CoinId { hash: h, index: i as u32 },
                            value: self.by_hash[h].transaction.output[i].value,
                            owner: self.by_hash[h].transaction.output[i].recipient,
                        },
                    )
            },
        decreases self.by_hash.dom().len(), queue.len(),
    {
        self.lemma_remove_spenders_keeps(queue);
        if queue.len() > 0 {
            let rest = queue.drop_first();
            if !self.by_input.contains_key(queue[0]) {
                self.lemma_spenders_taken_out(rest);
                let after = self.remove_spenders(rest).unwrap();
                assert forall|k: int| 0 <= k < queue.len() implies !after.by_input.contains_key(
                    #[trigger] queue[k],
                ) by {
                    if k > 0 {
                        assert(rest[k - 1] == queue[k]);
                    }
                }
            } else {
                let hash = self.by_input[queue[0]];
                let output = self.by_hash[hash].transaction.output;
                let made = pool_view::coins(hash, output);
                let left = self.remove(hash);
                let queue1 = rest + made;
                self.lemma_remove_valid(hash);
                self.lemma_remove_keeps(hash);
                left.lemma_spenders_taken_out(queue1);
                let after = left.remove_spenders(queue1).unwrap();
                assert(self.by_hash[hash].transaction.input.to_set().contains(queue[0]));
                assert forall|k: int| 0 <= k < queue.len() implies !after.by_input.contains_key(
                    #[trigger] queue[k],
                ) by {
                    if k > 0 {
                        assert(queue1[k - 1] == queue[k]);
                    }
                }
                assert forall|h: H256, i: int|
                    #![trigger self.by_hash[h].transaction.output[i]]
                    self.by_hash.contains_key(h) && !after.by_hash.contains_key(h) && 0 <= i
                        < self.by_hash[h].transaction.output.len() implies {
                    let output = self.by_hash[h].transaction.output[i];
                    !after.by_input.contains_key(
                        Input {
                            coin: CoinId { hash: h, index: i as u32 },
                            value: output.value,
                            owner: output.recipient,
                        },
                    )
                } by {
                    if h == hash {
                        assert(queue1[rest.len() + i] == made[i]);
                    } else {
                        assert(left.by_hash[h].transaction.output[i]
                            == self.by_hash[h].transaction.output[i]);
                    }
                }
            }
        }
    }

    /// Where the recorded spenders are in the pool, only spenders are taken out: a transaction is
    /// gone only if it was recorded for a queued input or for a coin that another one that is gone
    /// made. What was recorded for its inputs and stood under its storage index is gone with it,
    /// and nothing else is.
    pub proof fn lemma_only_spenders_taken_out(self, queue: Seq<Input>, h: H256, x: Input, i: u64)
        requires
            self.valid(),
            self.spenders_known(),
        ensures
            self.remove_spenders(queue) matches Some(after) && {
                &&& self.by_hash.contains_key(h) && !after.by_hash.contains_key(h) ==> {
                    &&& self.by_hash[h].transaction.input.contains(x)
                        ==> !after.by_input.contains_key(x)
                    &&& !after.by_storage_index.contains_key(self.by_hash[h].storage_index)
                    &&& {
                        ||| exists|k: int|
                            0 <= k < queue.len() && self.by_input.contains_key(
                                #[trigger] queue[k],
                            ) && self.by_input[queue[k]] == h
                        ||| exists|g: H256, n: int|
                            #![trigger self.by_hash[g].transaction.output[n]]
                            {
                                let output = self.by_hash[g].transaction.output;
                                let made = Input {
                                    coin: CoinId { hash: g, index: n as u32 },
                                    value: output[n].value,
                                    owner: output[n].recipient,
                                };
                                &&& self.by_hash.contains_key(g)
                                &&& !after.by_hash.contains_key(g)
                                &&& 0 <= n < output.len()
                                &&& self.by_input.contains_key(made)
                                &&& self.by_input[made] == h
                            }
                    }
                }
                &&& self.by_input.contains_key(x) && !after.by_input.contains_key(x) ==> exists|
                    g: H256,
                | #[trigger]
                    self.by_hash.contains_key(g) && !after.by_hash.contains_key(g)
                        && self.by_hash[g].transaction.input.contains(x)
                &&& self.by_storage_index.contains_key(i) && !after.by_storage_index.contains_key(i)
                    ==> exists|g: H256| #[trigger]
                    self.by_hash.contains_key(g) && !after.by_hash.contains_key(g)
                        && self.by_hash[g].storage_index == i
            },
        decreases self.by_hash.dom().len(), queue.len(),
    {
        self.lemma_remove_spenders_keeps(queue);
        self.lemma_spenders_taken_out(queue);
        if queue.len() > 0 {
            let rest = queue.drop_first();
            if !self.by_input.contains_key(queue[0]) {
                self.lemma_only_spenders_taken_out(rest, h, x, i);
                if exists|k: int|
                    0 <= k < rest.len() && self.by_input.contains_key(#[trigger] rest[k])
                        && self.by_input[rest[k]] == h {
                    let k = choose|k: int|
                        0 <= k < rest.len() && self.by_input.contains_key(#[trigger] rest[k])
                            && self.by_input[rest[k]] == h;
                    assert(queue[k + 1] == rest[k]);
                }
            } else {
                let hash = self.by_input[queue[0]];
                let output = self.by_hash[hash].transaction.output;
                let made = pool_view::coins(hash, output);
                let left = self.remove(hash);
                let queue1 = rest + made;
                self.lemma_remove_valid(hash);
                self.lemma_remove_keeps(hash);
                self.lemma_taken_out(hash);
                left.lemma_spenders_taken_out(queue1);
                left.lemma_only_spenders_taken_out(queue1, h, x, i);
                let after = left.remove_spenders(queue1).unwrap();
                assert(!after.by_hash.contains_key(hash));
                if h == hash {
                    assert(self.by_input.contains_key(queue[0]));
                    if self.by_hash[h].transaction.input.contains(x) {
                        assert(self.by_hash[h].transaction.input.to_set().contains(x));
                        assert(!left.by_input.contains_key(x));
                    }
                } else if self.by_hash.contains_key(h) && !after.by_hash.contains_key(h) {
                    if exists|k: int|
                        0 <= k < queue1.len() && left.by_input.contains_key(#[trigger] queue1[k])
                            && left.by_input[queue1[k]] == h {
                        let k = choose|k: int|
                            0 <= k < queue1.len() && left.by_input.contains_key(
                                #[trigger] queue1[k],
                            ) && left.by_input[queue1[k]] == h;
                        assert(self.by_input.contains_key(queue1[k]));
                        if k < rest.len() {
                            assert(queue[k + 1] == queue1[k]);
                        } else {
                            let n = k - rest.len();
                            assert(made[n] == queue1[k]);
                            assert(self.by_hash[hash].transaction.output[n] == output[n]);
                        }
                    } else {
                        let (g, n) = choose|g: H256, n: int|
                            #![trigger left.by_hash[g].transaction.output[n]]
                            {
                                let output = left.by_hash[g].transaction.output;
                                let made = Input {
                                    coin: CoinId { hash: g, index: n as u32 },
                                    value: output[n].value,
                                    owner: output[n].recipient,
                                };
                                &&& left.by_hash.contains_key(g)
                                &&& !after.by_hash.contains_key(g)
                                &&& 0 <= n < output.len()
                                &&& left.by_input.contains_key(made)
                                &&& left.by_input[made] == h
                            };
                        assert(self.by_hash[g].transaction.output[n]
                            == left.by_hash[g].transaction.output[n]);
                    }
                }
                if self.by_input.contains_key(x) && !after.by_input.contains_key(x) {
                    if left.by_input.contains_key(x) {
                        let g = choose|g: H256| #[trigger]
                            left.by_hash.contains_key(g) && !after.by_hash.contains_key(g)
                                && left.by_hash[g].transaction.input.contains(x);
                        assert(self.by_hash.contains_key(g));
                    } else {
                        assert(self.by_hash.contains_key(hash));
                    }
                }
                if self.by_storage_index.contains_key(i) && !after.by_storage_index.contains_key(
                    i,
                ) {
                    if left.by_storage_index.contains_key(i) {
                        let g = choose|g: H256| #[trigger]
                            left.by_hash.contains_key(g) && !after.by_hash.contains_key(g)
                                && left.by_hash[g].storage_index == i;
                        assert(self.by_hash.contains_key(g));
                    } else {
                        assert(self.by_hash.contains_key(hash));
                    }
                }
            }
        }
    }

    /// Whether the transaction `spender` of the pool has an input that is an output of the
    /// transaction `maker` of the pool.
    pub open spec fn spends_from(self, spender: H256, maker: H256) -> bool {
        let spending = self.by_hash[spender].transaction;
        let making = self.by_hash[maker].transaction;
        exists|j: int, i: int|
            #![trigger spending.input[j], making.output[i]]
            0 <= j < spending.input.len() && 0 <= i < making.output.len() && {
                let input = spending.input[j];
                let output = making.output[i];
                &&& input.coin.hash == maker
                &&& input.coin.index == i as u32
                &&& input.value == output.value
                &&& input.owner == output.recipient
            }
    }

    /// Whether `path` is a run of transactions of the pool of which the first spends `prevout`
    /// and each other one spends an output of the one before.
    pub open spec fn spending_path(self, prevout: Input, path: Seq<H256>) -> bool {
        &&& path.len() > 0
        &&& forall|k: int| 0 <= k < path.len() ==> self.by_hash.contains_key(#[trigger] path[k])
        &&& self.by_hash[path[0]].transaction.input.contains(prevout)
        &&& forall|k: int| 0 < k < path.len() ==> self.spends_from(#[trigger] path[k], path[k - 1])
    }

    /// Removing by an input leaves no transaction that spends it, and none that spends an output,
    /// whichever it is, of a transaction that was removed.
    pub proof fn lemma_no_orphans(self, prevout: Input, spender: H256, maker: H256)
        requires
            self.consistent(),
        ensures
            self.remove_spenders(seq![prevout]) matches Some(after) && {
                &&& after.by_hash.contains_key(spender)
                    ==> !after.by_hash[spender].transaction.input.contains(prevout)
                &&& after.by_hash.contains_key(spender) && self.by_hash.contains_key(maker)
                    && !after.by_hash.contains_key(maker) ==> !self.spends_from(spender, maker)
            },
    {
        let queue = seq![prevout];
        self.lemma_remove_spenders(queue);
        self.lemma_spenders_taken_out(queue);
        let after = self.remove_spenders(queue).unwrap();
        assert(after.consistent());
        assert(queue[0] == prevout);
        if after.by_hash.contains_key(spender) && self.by_hash.contains_key(maker)
            && !after.by_hash.contains_key(maker) && self.spends_from(spender, maker) {
            let spending = self.by_hash[spender].transaction;
            let making = self.by_hash[maker].transaction;
            let (j, i) = choose|j: int, i: int|
                #![trigger spending.input[j], making.output[i]]
                0 <= j < spending.input.len() && 0 <= i < making.output.len() && {
                    let input = spending.input[j];
                    let output = making.output[i];
                    &&& input.coin.hash == maker
                    &&& input.coin.index == i as u32
                    &&& input.value == output.value
                    &&& input.owner == output.recipient
                };
            let x = spending.input[j];
            assert(after.by_hash[spender].transaction.input.contains(x));
            assert(after.by_input.contains_key(x));
        }
    }

    /// Removing by an input removes a transaction exactly when the transaction spends that input
    /// or can be reached from a spender of it, each time from a transaction to one that spends an
    /// output of it. What is left keeps its records and its place.
    pub proof fn lemma_removed_iff_reached(self, prevout: Input, h: H256, x: Input, i: u64)
        requires
            self.consistent(),
        ensures
            self.remove_spenders(seq![prevout]) matches Some(after) && {
                &&& self.by_hash.contains_key(h) ==> (!after.by_hash.contains_key(h) <==> exists|
                    path: Seq<H256>,
                | #[trigger]
                    self.spending_path(prevout, path) && path.last() == h)
                &&& after.by_input.contains_key(x) <==> self.by_input.contains_key(x)
                    && after.by_hash.contains_key(self.by_input[x])
                &&& after.by_storage_index.contains_key(i) <==> self.by_storage_index.contains_key(
                    i,
                ) && after.by_hash.contains_key(self.by_storage_index[i])
                &&& after.consistent()
            },
    {
        let queue = seq![prevout];
        let roots = queue.to_set();
        let gone = self.dependents(roots);
        self.lemma_remove_spenders(queue);
        self.lemma_dependents_least(roots);
        let after = self.remove_spenders(queue).unwrap();
        assert(queue[0] == prevout);
        let reached = Set::new(
            |g: H256|
                exists|path: Seq<H256>| #[trigger]
                    self.spending_path(prevout, path) && path.last() == g,
        );
        assert(self.closed_under_spending(roots, reached)) by {
            assert forall|y: Input| #[trigger]
                roots.contains(y) && self.by_input.contains_key(y) implies reached.contains(
                self.by_input[y],
            ) by {
                let path = seq![self.by_input[y]];
                assert(y == prevout);
                assert(self.by_hash.contains_key(path[0]));
                assert(self.spending_path(prevout, path) && path.last() == self.by_input[y]);
            }
            assert forall|g: H256, y: Input|
                #![trigger reached.contains(g), self.by_input.contains_key(y)]
                reached.contains(g) && self.by_hash.contains_key(g) && pool_view::coins(
                    g,
                    self.by_hash[g].transaction.output,
                ).contains(y) && self.by_input.contains_key(y) implies reached.contains(
                self.by_input[y],
            ) by {
                let path = choose|path: Seq<H256>| #[trigger]
                    self.spending_path(prevout, path) && path.last() == g;
                let next = self.by_input[y];
                let longer = path.push(next);
                let inputs = self.by_hash[next].transaction.input;
                let made = pool_view::coins(g, self.by_hash[g].transaction.output);
                let j = choose|j: int| 0 <= j < inputs.len() && inputs[j] == y;
                let i = choose|i: int| 0 <= i < made.len() && made[i] == y;
                assert(self.by_hash[g].transaction.output[i].value == y.value);
                assert(self.by_hash[next].transaction.input[j] == y);
                assert(self.spends_from(next, g));
                assert forall|k: int| 0 < k < longer.len() implies self.spends_from(
                    #[trigger] longer[k],
                    longer[k - 1],
                ) by {
                    if k < path.len() {
                        assert(path[k] == longer[k] && path[k - 1] == longer[k - 1]);
                    }
                }
                assert forall|k: int| 0 <= k < longer.len() implies self.by_hash.contains_key(
                    #[trigger] longer[k],
                ) by {
                    if k < path.len() {
                        assert(path[k] == longer[k]);
                    }
                }
                assert(longer[0] == path[0]);
                assert(self.spending_path(prevout, longer) && longer.last() == next);
            }
        }
        assert(gone.subset_of(reached));
        if exists|path: Seq<H256>| #[trigger]
            self.spending_path(prevout, path) && path.last() == h {
            let path = choose|path: Seq<H256>| #[trigger]
                self.spending_path(prevout, path) && path.last() == h;
            self.lemma_path_removed(prevout, path, path.len() - 1);
        }
    }

    proof fn lemma_path_removed(self, prevout: Input, path: Seq<H256>, k: int)
        requires
            self.consistent(),
            self.spending_path(prevout, path),
            0 <= k < path.len(),
        ensures
            self.remove_spenders(seq![prevout]) matches Some(after) && !after.by_hash.contains_key(
                path[k],
            ),
        decreases k,
    {
        if k > 0 {
            self.lemma_path_removed(prevout, path, k - 1);
            self.lemma_no_orphans(prevout, path[k], path[k - 1]);
            assert(self.spends_from(path[k], path[k - 1]));
        } else {
            self.lemma_no_orphans(prevout, path[0], path[0]);
            self.lemma_spenders_taken_out(seq![prevout]);
        }
    }

    /// The transactions are listed by their storage indices, lowest first: each index once, and
    /// for each the transaction that was stored under it.
    pub proof fn lemma_listed_by_age(self, i: int, j: int, index: u64)
        requires
            self.by_storage_index.dom().finite(),
        ensures
            self.queue().len() == self.order().len(),
            self.order().len() == self.by_storage_index.dom().len(),
            0 <= i < j < self.order().len() ==> self.order()[i] < self.order()[j],
            self.order().contains(index) <==> self.by_storage_index.contains_key(index),
            0 <= i < self.order().len() ==> self.queue()[i]
                == self.by_hash[self.by_storage_index[self.order()[i]]].transaction,
    {
        order::lemma_in_order(self.by_storage_index.dom());
        assert(self.order().to_set().contains(index) == self.order().contains(index));
    }

    /// First in, first out: of two transactions, the one that was put in first is listed first,
    /// and after all that were there before.
    pub proof fn lemma_first_in_first_out(
        self,
        first: H256,
        transaction1: TransactionView,
        second: H256,
        transaction2: TransactionView,
    )
        requires
            self.valid(),
            self.indexed(),
            self.counter + 1 < u64::MAX,
            self.num_transactions + 1 < self.max_transactions,
            first != second,
            !self.by_hash.contains_key(first),
            !self.by_hash.contains_key(second),
        ensures
            self.insert(first, transaction1).insert(second, transaction2).queue()
                == self.queue().push(transaction1).push(transaction2),
    {
        let once = self.insert(first, transaction1);
        self.lemma_queue_insert(first, transaction1);
        self.lemma_insert_valid(first, transaction1);
        self.lemma_insert_indexed(first, transaction1);
        once.lemma_queue_insert(second, transaction2);
    }

    /// Where no transaction was put in twice, each transaction of the pool is listed.
    pub proof fn lemma_all_listed(self, h: H256)
        requires
            self.valid(),
            self.indexed(),
            self.by_hash.contains_key(h),
        ensures
            self.queue().len() == self.by_hash.dom().len(),
            exists|k: int|
                0 <= k < self.order().len() && self.by_storage_index[#[trigger] self.order()[k]]
                    == h && self.queue()[k] == self.by_hash[h].transaction,
    {
        self.lemma_listable(0);
        order::lemma_in_order(self.by_storage_index.dom());
        let index = self.by_hash[h].storage_index;
        assert(self.order().to_set().contains(index));
        let k = choose|k: int| 0 <= k < self.order().len() && self.order()[k] == index;
        assert(self.by_storage_index[self.order()[k]] == h);
    }
}

/// A transaction makes a coin with each of its outputs: the coin has the hash of the transaction,
/// the index of the output, and the value and the recipient of the output.
pub proof fn lemma_each_output_makes_a_coin(hash: H256, output: Seq<Output>, i: int)
    requires
        0 <= i < output.len(),
    ensures
        pool_view::coins(hash, output).len() == output.len(),
        pool_view::coins(hash, output)[i].coin.hash == hash,
        pool_view::coins(hash, output)[i].coin.index == i as u32,
        pool_view::coins(hash, output)[i].value == output[i].value,
        pool_view::coins(hash, output)[i].owner == output[i].recipient,
{
}

} // verus!
