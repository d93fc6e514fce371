//! What a miner keeps to, whatever it is told.

use crate::block::{ContentView, Header};
use crate::config::{BlockchainConfig, FIRST_VOTER_INDEX, PROPOSER_INDEX, TRANSACTION_INDEX};
use crate::crypto::hash::H256;
use crate::miner::context_view::{self, ContextView, RoundView};
use crate::miner::signals::{
    ContextUpdateSignal, ControlSignal, MerkleView, OperatingState, Phase, RequestView,
};
use crate::transaction::TransactionView;
use vstd::prelude::*;

verus! {

impl ContextView {
    /// The miner stays valid when the best voter blocks are known.
    pub proof fn lemma_voter_parents_valid(self, parents: Seq<H256>)
        requires
            self.valid(),
            self.phase is VoterParents,
            parents.len() == self.round.new_voter_block.len(),
        ensures
            self.after_voter_parents(parents).valid(),
    {
        let after = self.after_voter_parents(parents);
        assert(after.contents[PROPOSER_INDEX as int] == self.contents[PROPOSER_INDEX as int]);
        assert(after.contents[TRANSACTION_INDEX as int]
            == self.contents[TRANSACTION_INDEX as int]);
        assert forall|c: int|
            #![trigger after.contents[FIRST_VOTER_INDEX + c]]
            0 <= c < after.config.voter_chains implies after.contents[FIRST_VOTER_INDEX
            + c] is Voter && after.voter(c).chain_number == c by {
            assert(self.contents[FIRST_VOTER_INDEX + c] is Voter);
        }
    }

    /// The miner stays valid when the transactions are known.
    pub proof fn lemma_transactions_valid(self, transactions: Seq<TransactionView>)
        requires
            self.valid(),
            self.phase is Transactions,
        ensures
            self.after_transactions(transactions).valid(),
    {
        let after = self.after_transactions(transactions);
        assert forall|c: int|
            #![trigger after.contents[FIRST_VOTER_INDEX + c]]
            0 <= c < after.config.voter_chains implies after.contents[FIRST_VOTER_INDEX
            + c] is Voter && after.voter(c).chain_number == c by {
            assert(self.contents[FIRST_VOTER_INDEX + c] is Voter);
        }
    }

    /// The miner stays valid when the unreferred transaction blocks are known.
    pub proof fn lemma_transaction_refs_valid(self, refs: Seq<H256>)
        requires
            self.valid(),
            self.phase is TransactionRefs,
        ensures
            self.after_transaction_refs(refs).valid(),
    {
        let after = self.after_transaction_refs(refs);
        assert forall|c: int|
            #![trigger after.contents[FIRST_VOTER_INDEX + c]]
            0 <= c < after.config.voter_chains implies after.contents[FIRST_VOTER_INDEX
            + c] is Voter && after.voter(c).chain_number == c by {
            assert(self.contents[FIRST_VOTER_INDEX + c] is Voter);
        }
    }

    /// The miner stays valid when the unreferred blocks are known.
    pub proof fn lemma_proposer_refs_valid(self, transactions: Seq<H256>, proposers: Seq<H256>)
        requires
            self.valid(),
            self.phase is ProposerRefs,
        ensures
            self.after_proposer_refs(transactions, proposers).valid(),
    {
        let after = self.after_proposer_refs(transactions, proposers);
        let keep = context_view::other_than(self.header.parent);
        broadcast use vstd::seq_lib::group_filter_ensures;

        assert forall|c: int|
            #![trigger after.contents[FIRST_VOTER_INDEX + c]]
            0 <= c < after.config.voter_chains implies after.contents[FIRST_VOTER_INDEX
            + c] is Voter && after.voter(c).chain_number == c by {
            assert(self.contents[FIRST_VOTER_INDEX + c] is Voter);
        }
    }

    /// The miner stays valid when the votes are known.
    pub proof fn lemma_votes_valid(self, votes: Seq<Seq<H256>>)
        requires
            self.valid(),
            self.phase is Votes,
            votes.len() == self.config.voter_chains,
        ensures
            self.after_votes(votes).valid(),
    {
        let after = self.after_votes(votes);
        assert forall|c: int|
            #![trigger after.contents[FIRST_VOTER_INDEX + c]]
            0 <= c < after.config.voter_chains implies after.contents[FIRST_VOTER_INDEX
            + c] is Voter && after.voter(c).chain_number == c by {
            assert(self.contents[FIRST_VOTER_INDEX + c] is Voter);
        }
    }

    /// A miner that is told to exit leaves the mining loop, whether it is paused or running.
    pub proof fn lemma_exit_stops(self)
        requires
            self.valid(),
            self.phase is Control || self.phase is Poll,
        ensures
            self.after_control(ControlSignal::Exit).request() is Stop,
    {
    }

    /// A miner that is told to start or to step looks for signals and updates.
    pub proof fn lemma_start_runs(self, signal: ControlSignal)
        requires
            self.valid(),
            self.phase is Control || self.phase is Poll,
            !(signal is Exit),
        ensures
            self.phase is Control ==> self.after_control(signal).request() is PollControl,
            self.phase is Poll ==> self.after_control(signal).request() is DrainUpdates,
    {
    }

    /// The miner goes on from the choice of a parent only when the parent is the best proposer
    /// block that it was told of last. Otherwise that block becomes the parent.
    pub proof fn lemma_parent_is_best(self, best: H256)
        requires
            self.valid(),
            self.phase is NewParent || self.phase is ParentCheck,
        ensures
            self.after_best_proposer(best).header.parent == best,
            self.after_best_proposer(best).phase is Votes || self.after_best_proposer(
                best,
            ).phase is Difficulty <==> self.phase is ParentCheck && self.header.parent == best,
            self.after_best_proposer(best).contents == self.contents,
    {
    }

    /// A round to which no signal came, and in which the parent is still the best, leaves the
    /// contents, the parent and the Merkle root as they were. Only the difficulty is set.
    pub proof fn lemma_quiet_round(self, found: Option<H256>)
        requires
            self.valid(),
            self.phase is Updates,
        ensures
            ({
                let after = self.after_updates(Seq::empty(), Seq::empty()).after_voter_parents(
                    Seq::empty(),
                ).after_best_proposer(self.header.parent).after_difficulty(found);
                after == (ContextView {
                    header: Header {
                        difficulty: match found {
                            Some(difficulty) => difficulty,
                            None => self.config.default_difficulty,
                        },
                        ..self.header
                    },
                    round: RoundView::quiet(),
                    phase: Phase::Nonce,
                    ..self
                })
            }),
    {
        let updated = self.after_updates(Seq::empty(), Seq::empty());
        let settled = updated.after_voter_parents(Seq::empty());
        assert(settled.contents =~= self.contents);
        assert(settled.round.touched_content =~= Set::empty());
        assert(settled.round.new_voter_block =~= Seq::empty());
        assert(settled.round =~= RoundView::quiet());
    }

    /// The signals that a miner sends itself at the start have it update everything: the
    /// proposer content, the transaction content, and each voter chain.
    pub proof fn lemma_initial_updates(self, chains: Seq<u16>)
        requires
            self.valid(),
            context_view::lists_voters(
                chains,
                context_view::initial_updates(self.config.voter_chains),
            ),
        ensures
            ({
                let signals = context_view::initial_updates(
                    self.config.voter_chains,
                );
                let round = self.after_updates(signals, chains).round;
                &&& round.new_proposer_block
                &&& round.new_transaction_block
                &&& forall|c: u16| #[trigger]
                    round.new_voter_block.contains(c) <==> c < self.config.voter_chains
            }),
    {
        let n = self.config.voter_chains;
        let signals = context_view::initial_updates(n);
        assert(signals[0] == ContextUpdateSignal::NewProposerBlock);
        assert(signals[1] == ContextUpdateSignal::NewTransactionBlock);
        assert forall|c: u16| #[trigger] chains.contains(c) <==> c < n by {
            if c < n {
                assert(signals[2 + c] == ContextUpdateSignal::NewVoterBlock(c));
            }
            if signals.contains(ContextUpdateSignal::NewVoterBlock(c)) {
                let i = choose|i: int|
                    0 <= i < signals.len() && signals[i] == ContextUpdateSignal::NewVoterBlock(c);
                assert(i >= 2);
            }
        }
    }

    /// A miner that was told to mine one block publishes the block that it mines, whatever the
    /// content, and then waits to be told what to do.
    pub proof fn lemma_step_mines_one(self, content: ContentView)
        requires
            self.valid(),
            self.phase is Sortition,
            self.operating_state is Step,
        ensures
            !self.skips(content),
            self.after_sortition(content).after_publish().request() is AwaitControl,
    {
    }

    /// A miner that runs goes on after a block, whether or not the block was published.
    pub proof fn lemma_run_goes_on(self, content: ContentView)
        requires
            self.valid(),
            self.phase is Sortition,
            self.operating_state is Run,
        ensures
            self.after_sortition(content).operating_state == self.operating_state,
            ({
                let request = self.after_sortition(content).after_publish().request();
                request is PollControl || request is Sleep
            }),
    {
    }

    /// Where the Merkle tree is not built anew, the entries that are replaced are those of the
    /// contents that were written, but for voter chains to which no block came.
    pub proof fn lemma_merkle_covers(self, i: u16)
        requires
            self.valid(),
            self.phase is MerkleRoot,
            self.round.touched_content.contains(i),
            i < FIRST_VOTER_INDEX || self.round.new_voter_block.contains(
                (i - FIRST_VOTER_INDEX) as u16,
            ),
        ensures
            self.round.merkle_update() is Rebuild || self.round.entries().contains(i),
    {
        let round = self.round;
        let voters = round.new_voter_block.map_values(|c: u16| (FIRST_VOTER_INDEX + c) as u16);
        if !(round.merkle_update() is Rebuild) {
            let entries = round.entries();
            if i >= FIRST_VOTER_INDEX {
                let c = (i - FIRST_VOTER_INDEX) as u16;
                let k = choose|k: int|
                    0 <= k < round.new_voter_block.len() && round.new_voter_block[k] == c;
                assert(entries[k] == i);
            } else if i == TRANSACTION_INDEX {
                assert(entries[voters.len() as int] == i);
            } else {
                assert(entries[(voters.len() + 1) as int] == i);
            }
        }
    }

    /// When the voter chains have been heard, the parent of each chain to which a block came is
    /// the best block of that chain, and the parents of the other chains are as they were.
    pub proof fn lemma_voter_parents_best(self, parents: Seq<H256>, c: int)
        requires
            self.valid(),
            self.phase is VoterParents,
            parents.len() == self.round.new_voter_block.len(),
            0 <= c < self.config.voter_chains,
        ensures
            forall|k: int|
                0 <= k < parents.len() && self.round.new_voter_block[k] == c
                    ==> self.after_voter_parents(parents).voter(c).voter_parent
                    == #[trigger] parents[k],
            !self.round.new_voter_block.contains(c as u16) ==> self.after_voter_parents(
                parents,
            ).voter(c) == self.voter(c),
    {
        let after = self.after_voter_parents(parents);
        assert(after.contents[FIRST_VOTER_INDEX + c] == self.with_parent(
            parents,
            FIRST_VOTER_INDEX + c,
        ));
        let chains = self.round.new_voter_block;
        assert forall|k: int|
            0 <= k < parents.len() && chains[k] == c implies after.voter(c).voter_parent
            == #[trigger] parents[k] by {
            assert(forall|j: int| 0 <= j < chains.len() && #[trigger] chains[j] == c ==> j == k);
        }
    }

    /// A new miner waits for a control signal, on top of the proposer genesis block.
    pub proof fn lemma_starts_on_genesis(self, config: BlockchainConfig, timestamp: u128)
        requires
            self.initial(config, timestamp),
        ensures
            self.request() is AwaitControl,
            self.operating_state is Paused,
            self.config == config,
            self.header.parent == config.proposer_genesis,
            self.header.timestamp == timestamp,
            self.header.nonce == 0,
            self.header.content_merkle_root.value() == 0,
            self.header.difficulty == config.default_difficulty,
            forall|i: int| 0 <= i < 32 ==> #[trigger] self.header.extra_content@[i] == 0,
    {
        assert forall|i: int| 0 <= i < 32 implies #[trigger] self.header.extra_content@[i]
            == 0 by {
            assert(self.header.extra_content@[i] == Seq::new(32, |k: int| 0u8)[i]);
        }
    }

    /// The contents that a miner starts with are a proposer content that refers to nothing, a
    /// transaction content without transactions, and for each voter chain, in order, a content
    /// without votes on top of the genesis block of the chain.
    pub proof fn lemma_starts_without_content(
        self,
        config: BlockchainConfig,
        timestamp: u128,
        c: int,
    )
        requires
            self.initial(config, timestamp),
        ensures
            self.contents.len() == 2 + config.voter_chains,
            self.contents[0] matches ContentView::Proposer(p) && p.transaction_refs.len() == 0
                && p.proposer_refs.len() == 0,
            self.contents[1] matches ContentView::Transaction(t) && t.len() == 0,
            0 <= c < config.voter_chains ==> (self.contents[2 + c] matches ContentView::Voter(v)
                && v.chain_number == c && v.voter_parent == config.voter_genesis@[c]
                && v.votes.len() == 0),
    {
    }

    /// A control signal puts the miner in the state that it names, and touches nothing of the
    /// block that is being mined. Whoever waits looks for another signal first; whoever looked
    /// goes on with the round; and exit ends the loop.
    pub proof fn lemma_control_obeyed(self, signal: ControlSignal)
        requires
            self.phase is Control || self.phase is Poll,
        ensures
            ({
                let after = self.after_control(signal);
                &&& signal is Exit ==> after.operating_state is ShutDown && after.request() is Stop
                &&& signal matches ControlSignal::Start(lambda, lazy) ==> after.operating_state
                    == OperatingState::Run(lambda, lazy)
                &&& signal is Step ==> after.operating_state is Step
                &&& !(signal is Exit) && self.phase is Control ==> after.request() is PollControl
                &&& !(signal is Exit) && self.phase is Poll ==> after.request() is DrainUpdates
                &&& after.header == self.header
                &&& after.contents == self.contents
                &&& after.config == self.config
                &&& after.round == self.round
            }),
    {
    }

    /// A miner that finds no control signal goes on with the round, in the state that it was in.
    pub proof fn lemma_silence_changes_nothing(self)
        ensures
            ({
                let after = self.after_silence();
                &&& after.request() is DrainUpdates
                &&& after.operating_state == self.operating_state
                &&& after.header == self.header
                &&& after.contents == self.contents
                &&& after.config == self.config
                &&& after.round == self.round
            }),
    {
    }

    /// Every signal is heard, and nothing is heard that was not signalled. The best block is
    /// asked for each voter chain that was signalled, once, in ascending order.
    pub proof fn lemma_updates_heard(
        self,
        signals: Seq<ContextUpdateSignal>,
        chains: Seq<u16>,
        c: u16,
    )
        requires
            context_view::lists_voters(chains, signals),
        ensures
            ({
                let after = self.after_updates(signals, chains);
                &&& after.round.new_proposer_block <==> exists|i: int|
                    0 <= i < signals.len() && #[trigger] signals[i]
                        == ContextUpdateSignal::NewProposerBlock
                &&& after.round.new_transaction_block <==> exists|i: int|
                    0 <= i < signals.len() && #[trigger] signals[i]
                        == ContextUpdateSignal::NewTransactionBlock
                &&& (exists|k: int| 0 <= k < chains.len() && #[trigger] chains[k] == c)
                    <==> exists|i: int|
                    0 <= i < signals.len() && #[trigger] signals[i]
                        == ContextUpdateSignal::NewVoterBlock(c)
                &&& forall|i: int, j: int| 0 <= i < j < chains.len() ==> chains[i] < chains[j]
                &&& after.request() == RequestView::BestVoters(chains)
                &&& after.round.new_voter_block == chains
                &&& !after.round.voter_shift
                &&& forall|i: u16| !(#[trigger] after.round.touched_content.contains(i))
                &&& after.operating_state == self.operating_state
                &&& after.header == self.header
                &&& after.contents == self.contents
                &&& after.config == self.config
            }),
    {
        assert(chains.contains(c) <==> signals.contains(ContextUpdateSignal::NewVoterBlock(c)));
    }

    /// The best block of each voter chain that was asked about becomes the parent of the content
    /// of that chain, which otherwise stays, as do all other contents. A shift is noted exactly
    /// when some parent is another than before, and a content exactly when its parent is.
    pub proof fn lemma_voter_parents_taken(self, parents: Seq<H256>, i: int, k: int)
        requires
            self.valid(),
            self.phase is VoterParents,
            parents.len() == self.round.new_voter_block.len(),
            0 <= i < self.contents.len(),
            0 <= k < parents.len(),
        ensures
            ({
                let after = self.after_voter_parents(parents);
                let chains = self.round.new_voter_block;
                let place = FIRST_VOTER_INDEX + chains[k];
                &&& after.contents.len() == self.contents.len()
                &&& (self.contents[place] matches ContentView::Voter(old_voter)
                    && after.contents[place] matches ContentView::Voter(new_voter)
                    && new_voter.voter_parent == parents[k] && new_voter.votes == old_voter.votes
                    && new_voter.chain_number == old_voter.chain_number)
                &&& (forall|j: int|
                    0 <= j < chains.len() ==> FIRST_VOTER_INDEX + #[trigger] chains[j] != i)
                    ==> after.contents[i] == self.contents[i]
            }),
    {
        self.lemma_voter_parents_best(parents, self.round.new_voter_block[k] as int);
        let after = self.after_voter_parents(parents);
        let place = FIRST_VOTER_INDEX + self.round.new_voter_block[k];
        assert(self.contents[FIRST_VOTER_INDEX + self.round.new_voter_block[k]] is Voter);
        assert(after.contents[place] == self.with_parent(parents, place));
        assert(after.contents[i] == self.with_parent(parents, i));
    }

    /// What the miner notes of the voter parents, and what it asks for then: the transactions
    /// where a transaction block came, and otherwise the best proposer block.
    pub proof fn lemma_voter_shift_noted(self, parents: Seq<H256>, i: u16)
        requires
            self.valid(),
            self.phase is VoterParents,
            parents.len() == self.round.new_voter_block.len(),
        ensures
            ({
                let after = self.after_voter_parents(parents);
                let chains = self.round.new_voter_block;
                &&& after.round.voter_shift <==> exists|k: int|
                    0 <= k < chains.len() && parents[k] != self.contents[FIRST_VOTER_INDEX
                        + #[trigger] chains[k]]->Voter_0.voter_parent
                &&& after.round.touched_content.contains(i) <==> exists|k: int|
                    0 <= k < chains.len() && FIRST_VOTER_INDEX + #[trigger] chains[k] == i
                        && parents[k] != self.contents[FIRST_VOTER_INDEX
                        + chains[k]]->Voter_0.voter_parent
                &&& self.round.new_transaction_block ==> after.request()
                    == RequestView::Transactions(self.config.tx_txs)
                &&& !self.round.new_transaction_block ==> after.request() is BestProposer
                &&& !self.round.new_transaction_block ==> (after.phase is NewParent
                    <==> self.round.new_proposer_block)
                &&& after.round.new_transaction_block == self.round.new_transaction_block
                &&& after.round.new_voter_block == self.round.new_voter_block
                &&& after.round.new_proposer_block == self.round.new_proposer_block
                &&& after.operating_state == self.operating_state
                &&& after.header == self.header
                &&& after.config == self.config
            }),
    {
        let after = self.after_voter_parents(parents);
        let chains = self.round.new_voter_block;
        if exists|k: int|
            0 <= k < chains.len() && parents[k] != self.contents[FIRST_VOTER_INDEX
                + #[trigger] chains[k]]->Voter_0.voter_parent {
            let k = choose|k: int|
                0 <= k < chains.len() && parents[k] != self.contents[FIRST_VOTER_INDEX
                    + #[trigger] chains[k]]->Voter_0.voter_parent;
            assert(self.parent_changed(parents, chains[k] as int));
        }
        assert(after.round.touched_content.contains(i) == self.parent_changed(
            parents,
            i - FIRST_VOTER_INDEX,
        ));
    }

    /// The transactions become the transaction content, all of them and in their order, and no
    /// other content changes. The references are asked for exactly when no proposer block came
    /// and the proposer content refers to fewer transaction blocks than it may.
    pub proof fn lemma_transactions_taken(self, transactions: Seq<TransactionView>, i: int)
        requires
            self.valid(),
            0 <= i < self.contents.len(),
        ensures
            ({
                let after = self.after_transactions(transactions);
                let refs = self.contents[PROPOSER_INDEX as int]->Proposer_0.transaction_refs;
                &&& after.contents.len() == self.contents.len()
                &&& after.contents[TRANSACTION_INDEX as int] == ContentView::Transaction(
                    transactions,
                )
                &&& i != TRANSACTION_INDEX ==> after.contents[i] == self.contents[i]
                &&& after.request() is UnreferredTransactions <==> !self.round.new_proposer_block
                    && refs.len() < self.config.proposer_tx_refs
                &&& !(after.request() is UnreferredTransactions) ==> after.request() is BestProposer
                &&& after.phase is NewParent <==> self.round.new_proposer_block
                &&& forall|k: u16| #[trigger]
                    after.round.touched_content.contains(k) <==> k == TRANSACTION_INDEX
                        || self.round.touched_content.contains(k)
                &&& after.round.new_transaction_block == self.round.new_transaction_block
                &&& after.round.new_voter_block == self.round.new_voter_block
                &&& after.round.new_proposer_block == self.round.new_proposer_block
                &&& after.round.voter_shift == self.round.voter_shift
                &&& after.operating_state == self.operating_state
                &&& after.header == self.header
                &&& after.config == self.config
            }),
    {
    }

    /// The first transaction blocks that nothing refers to, as many as the quota allows, become
    /// the transaction references. The proposer references and all other contents stay.
    pub proof fn lemma_transaction_refs_taken(self, refs: Seq<H256>, i: int, k: int)
        requires
            self.valid(),
            0 <= i < self.contents.len(),
        ensures
            ({
                let after = self.after_transaction_refs(refs);
                let quota = self.config.proposer_tx_refs;
                &&& after.contents.len() == self.contents.len()
                &&& (after.contents[PROPOSER_INDEX as int] matches ContentView::Proposer(p) && {
                    &&& refs.len() <= quota ==> p.transaction_refs.len() == refs.len()
                    &&& refs.len() > quota ==> p.transaction_refs.len() == quota
                    &&& 0 <= k < p.transaction_refs.len() ==> p.transaction_refs[k] == refs[k]
                    &&& p.proposer_refs
                        == self.contents[PROPOSER_INDEX as int]->Proposer_0.proposer_refs
                })
                &&& i != PROPOSER_INDEX ==> after.contents[i] == self.contents[i]
                &&& after.phase is ParentCheck && after.request() is BestProposer
                &&& forall|j: u16| #[trigger]
                    after.round.touched_content.contains(j) <==> j == PROPOSER_INDEX
                        || self.round.touched_content.contains(j)
                &&& after.round.new_transaction_block == self.round.new_transaction_block
                &&& after.round.new_voter_block == self.round.new_voter_block
                &&& after.round.new_proposer_block == self.round.new_proposer_block
                &&& after.round.voter_shift == self.round.voter_shift
                &&& after.operating_state == self.operating_state
                &&& after.header == self.header
                &&& after.config == self.config
            }),
    {
    }

    /// When the parent is found to be the best proposer block, the round keeps all that it has.
    /// The votes are asked for exactly when a proposer block or a voter block came, and otherwise
    /// the difficulty is.
    pub proof fn lemma_votes_follow_blocks(self)
        requires
            self.phase is ParentCheck,
        ensures
            ({
                let after = self.after_best_proposer(self.header.parent);
                &&& after.request() is UnvotedProposers <==> self.round.new_proposer_block
                    || self.round.new_voter_block.len() > 0
                &&& !(after.request() is UnvotedProposers) ==> after.request()
                    == RequestView::Difficulty(self.header.parent)
                &&& after.operating_state == self.operating_state
                &&& after.header == self.header
                &&& after.contents == self.contents
                &&& after.config == self.config
                &&& after.round == self.round
            }),
    {
    }

    /// Where the parent of some voter chain changed in the round, the miner does not get past
    /// the choice of its own parent without asking for the votes.
    pub proof fn lemma_shift_refreshes_votes(self, best: H256)
        requires
            self.valid(),
            self.phase is ParentCheck,
            self.round.voter_shift,
        ensures
            ({
                let request = self.after_best_proposer(best).request();
                request is UnvotedProposers || request is UnreferredBlocks
            }),
    {
    }

    /// From the voter parents on: if one of them changed, and no other block came, the votes of
    /// all chains are asked for as soon as the parent is found to be the best.
    pub proof fn lemma_new_voter_parent_needs_votes(self, parents: Seq<H256>, k: int)
        requires
            self.valid(),
            self.phase is VoterParents,
            parents.len() == self.round.new_voter_block.len(),
            !self.round.new_transaction_block,
            !self.round.new_proposer_block,
            0 <= k < parents.len(),
        ensures
            ({
                let heard = self.after_voter_parents(parents);
                let request = heard.after_best_proposer(self.header.parent).request();
                &&& request is UnvotedProposers
                &&& request->proposer == self.header.parent
                &&& request->voter_parents.len() == self.config.voter_chains
                &&& request->voter_parents[self.round.new_voter_block[k] as int] == parents[k]
            }),
    {
        self.lemma_voter_parents_taken(parents, 0, k);
    }

    /// A proposer block that is not the parent yet becomes the parent, counts as a new proposer
    /// block, and has the references refreshed. Nothing else changes.
    pub proof fn lemma_better_parent_taken(self, best: H256)
        requires
            self.phase is NewParent || self.phase is ParentCheck && self.header.parent != best,
        ensures
            ({
                let after = self.after_best_proposer(best);
                &&& after.request() is UnreferredBlocks
                &&& after.round.new_proposer_block
                &&& after.header.parent == best
                &&& after.header.timestamp == self.header.timestamp
                &&& after.header.nonce == self.header.nonce
                &&& after.header.content_merkle_root == self.header.content_merkle_root
                &&& after.header.extra_content == self.header.extra_content
                &&& after.header.difficulty == self.header.difficulty
                &&& after.round.new_transaction_block == self.round.new_transaction_block
                &&& after.round.new_voter_block == self.round.new_voter_block
                &&& after.round.touched_content == self.round.touched_content
                &&& after.round.voter_shift == self.round.voter_shift
                &&& after.operating_state == self.operating_state
                &&& after.contents == self.contents
                &&& after.config == self.config
            }),
    {
    }

    /// The first unreferred transaction blocks, as many as the quota allows, become the
    /// transaction references, and all unreferred proposer blocks but the parent, in their order,
    /// the proposer references. The other contents stay, and the parent is checked again.
    pub proof fn lemma_references_taken(
        self,
        transactions: Seq<H256>,
        proposers: Seq<H256>,
        i: int,
        k: int,
        h: H256,
    )
        requires
            self.valid(),
            0 <= i < self.contents.len(),
        ensures
            ({
                let after = self.after_proposer_refs(transactions, proposers);
                let quota = self.config.proposer_tx_refs;
                let parent = self.header.parent;
                &&& after.contents.len() == self.contents.len()
                &&& (after.contents[PROPOSER_INDEX as int] matches ContentView::Proposer(p) && {
                    &&& transactions.len() <= quota ==> p.transaction_refs.len()
                        == transactions.len()
                    &&& transactions.len() > quota ==> p.transaction_refs.len() == quota
                    &&& 0 <= k < p.transaction_refs.len() ==> p.transaction_refs[k]
                        == transactions[k]
                    &&& p.proposer_refs == proposers.filter(|x: H256| x != parent)
                    &&& p.proposer_refs.contains(h) <==> proposers.contains(h) && h != parent
                })
                &&& i != PROPOSER_INDEX ==> after.contents[i] == self.contents[i]
                &&& after.phase is ParentCheck && after.request() is BestProposer
                &&& forall|j: u16| #[trigger]
                    after.round.touched_content.contains(j) <==> j == PROPOSER_INDEX
                        || self.round.touched_content.contains(j)
                &&& after.round.new_transaction_block == self.round.new_transaction_block
                &&& after.round.new_voter_block == self.round.new_voter_block
                &&& after.round.new_proposer_block == self.round.new_proposer_block
                &&& after.round.voter_shift == self.round.voter_shift
                &&& after.operating_state == self.operating_state
                &&& after.header == self.header
                &&& after.config == self.config
            }),
    {
        broadcast use vstd::seq_lib::group_filter_ensures;

        let parent = self.header.parent;
        let keep = context_view::other_than(parent);
        let direct = |x: H256| x != parent;
        assert(keep =~= direct);
        let kept = proposers.filter(keep);
        if proposers.contains(h) && h != parent {
            let j = choose|j: int| 0 <= j < proposers.len() && proposers[j] == h;
            assert(keep(proposers[j]));
            assert(kept.contains(proposers[j]));
        }
        if kept.contains(h) {
            let j = choose|j: int| 0 <= j < kept.len() && kept[j] == h;
            proposers.lemma_filter_contains_rev(keep, h);
            assert(keep(proposers.filter(keep)[j]));
        }
    }

    /// The votes of each voter chain, and of no other, become those of the content of the chain.
    /// The chain and the parent that the content has stay, as do the other two contents.
    pub proof fn lemma_votes_taken(self, votes: Seq<Seq<H256>>, c: int, i: u16)
        requires
            self.valid(),
            votes.len() == self.config.voter_chains,
        ensures
            ({
                let after = self.after_votes(votes);
                &&& after.contents.len() == self.contents.len()
                &&& after.contents[PROPOSER_INDEX as int] == self.contents[PROPOSER_INDEX as int]
                &&& after.contents[TRANSACTION_INDEX as int]
                    == self.contents[TRANSACTION_INDEX as int]
                &&& 0 <= c < self.config.voter_chains ==> {
                    &&& self.contents[FIRST_VOTER_INDEX + c] matches ContentView::Voter(old_voter)
                    &&& after.contents[FIRST_VOTER_INDEX + c] matches ContentView::Voter(new_voter)
                    &&& new_voter.votes == votes[c]
                    &&& new_voter.voter_parent == old_voter.voter_parent
                    &&& new_voter.chain_number == old_voter.chain_number
                }
                &&& after.request() == RequestView::Difficulty(self.header.parent)
                &&& after.round.touched_content.contains(i) <==> FIRST_VOTER_INDEX <= i
                    < self.contents.len() || self.round.touched_content.contains(i)
                &&& after.round.new_transaction_block == self.round.new_transaction_block
                &&& after.round.new_voter_block == self.round.new_voter_block
                &&& after.round.new_proposer_block == self.round.new_proposer_block
                &&& after.round.voter_shift == self.round.voter_shift
                &&& after.operating_state == self.operating_state
                &&& after.header == self.header
                &&& after.config == self.config
            }),
    {
        if 0 <= c < self.config.voter_chains {
            assert(self.contents[FIRST_VOTER_INDEX + c] is Voter);
        }
    }

    /// The difficulty is that of the parent block if the block is known, and otherwise the default
    /// one. The Merkle root is asked for exactly when some block came in the round.
    pub proof fn lemma_difficulty_taken(self, found: Option<H256>)
        ensures
            ({
                let after = self.after_difficulty(found);
                &&& found matches Some(d) ==> after.header.difficulty == d
                &&& found is None ==> after.header.difficulty == self.config.default_difficulty
                &&& after.header.parent == self.header.parent
                &&& after.header.timestamp == self.header.timestamp
                &&& after.header.nonce == self.header.nonce
                &&& after.header.content_merkle_root == self.header.content_merkle_root
                &&& after.header.extra_content == self.header.extra_content
                &&& after.request() is MerkleRoot <==> self.round.new_proposer_block
                    || self.round.new_voter_block.len() > 0 || self.round.new_transaction_block
                &&& !(after.request() is MerkleRoot) ==> after.request() is Nonce
                &&& after.operating_state == self.operating_state
                &&& after.contents == self.contents
                &&& after.config == self.config
                &&& after.round == self.round
            }),
    {
    }

    /// The Merkle tree is built anew exactly when a proposer block came or a voter parent changed.
    /// Otherwise the entries of the voter chains to which a block came are replaced, and where a
    /// transaction block came that of the transaction content, and with it that of the proposer
    /// content if it was written. They are replaced in that order, and none twice.
    pub proof fn lemma_merkle_update(self, i: u16)
        requires
            self.valid(),
            self.phase is MerkleRoot,
        ensures
            self.request() matches RequestView::MerkleRoot(update) && {
                &&& update is Rebuild <==> self.round.new_proposer_block || self.round.voter_shift
                &&& update matches MerkleView::Entries(entries) ==> {
                    &&& entries.contains(i) <==> {
                        ||| exists|k: int|
                            0 <= k < self.round.new_voter_block.len() && FIRST_VOTER_INDEX
                                + #[trigger] self.round.new_voter_block[k] == i
                        ||| i == TRANSACTION_INDEX && self.round.new_transaction_block
                        ||| i == PROPOSER_INDEX && self.round.new_transaction_block
                            && self.round.touched_content.contains(PROPOSER_INDEX)
                    }
                    &&& entries.no_duplicates()
                    &&& forall|k: int|
                        0 <= k < self.round.new_voter_block.len() ==> entries[k]
                            == FIRST_VOTER_INDEX + #[trigger] self.round.new_voter_block[k]
                    &&& self.round.new_transaction_block
                        ==> entries[self.round.new_voter_block.len() as int] == TRANSACTION_INDEX
                }
            },
    {
        let round = self.round;
        let chains = round.new_voter_block;
        let voters = chains.map_values(|c: u16| (FIRST_VOTER_INDEX + c) as u16);
        let entries = round.entries();
        assert forall|k: int| 0 <= k < chains.len() implies entries[k] == FIRST_VOTER_INDEX
            + #[trigger] chains[k] by {}
        if exists|k: int|
            0 <= k < chains.len() && FIRST_VOTER_INDEX + #[trigger] chains[k] == i {
            let k = choose|k: int|
                0 <= k < chains.len() && FIRST_VOTER_INDEX + #[trigger] chains[k] == i;
            assert(entries[k] == i);
        }
        if round.new_transaction_block {
            assert(entries[chains.len() as int] == TRANSACTION_INDEX);
            if round.touched_content.contains(PROPOSER_INDEX) {
                assert(entries[chains.len() as int + 1] == PROPOSER_INDEX);
            }
        }
        if entries.contains(i) {
            let k = choose|k: int| 0 <= k < entries.len() && entries[k] == i;
            if k < chains.len() {
                assert(FIRST_VOTER_INDEX + chains[k] == i);
            }
        }
        assert(entries.no_duplicates()) by {
            assert forall|a: int, b: int|
                0 <= a < b < entries.len() implies entries[a] != entries[b] by {
                if b < chains.len() {
                    assert(chains[a] < chains[b]);
                } else if a < chains.len() {
                    assert(entries[a] == FIRST_VOTER_INDEX + chains[a]);
                }
            }
        }
    }

    /// The root of the Merkle tree goes into the header, and nothing else changes.
    pub proof fn lemma_merkle_root_taken(self, root: H256)
        ensures
            ({
                let after = self.after_merkle_root(root);
                &&& after.header.content_merkle_root == root
                &&& after.header.parent == self.header.parent
                &&& after.header.timestamp == self.header.timestamp
                &&& after.header.nonce == self.header.nonce
                &&& after.header.extra_content == self.header.extra_content
                &&& after.header.difficulty == self.header.difficulty
                &&& after.request() is Nonce
                &&& after.operating_state == self.operating_state
                &&& after.contents == self.contents
                &&& after.config == self.config
                &&& after.round == self.round
            }),
    {
    }

    /// The nonce and the time go into the header, and the hash of that header is asked for.
    pub proof fn lemma_nonce_taken(self, nonce: u32, timestamp: u128)
        ensures
            ({
                let after = self.after_nonce(nonce, timestamp);
                &&& after.header.nonce == nonce
                &&& after.header.timestamp == timestamp
                &&& after.header.parent == self.header.parent
                &&& after.header.content_merkle_root == self.header.content_merkle_root
                &&& after.header.extra_content == self.header.extra_content
                &&& after.header.difficulty == self.header.difficulty
                &&& after.request() == RequestView::HeaderHash(after.header)
                &&& after.operating_state == self.operating_state
                &&& after.contents == self.contents
                &&& after.config == self.config
                &&& after.round == self.round
            }),
    {
    }

    /// A header is a block exactly when its hash is below the difficulty, the first halves being
    /// compared first. The content is then asked for with that hash and that difficulty. If it
    /// is no block, the miner rests for the interval that it was given, if any, and goes on.
    pub proof fn lemma_block_iff_below(self, hash: H256)
        requires
            self.valid(),
            self.phase is HeaderHash,
        ensures
            ({
                let after = self.after_header_hash(hash);
                let bound = self.header.difficulty;
                let below = hash.hi < bound.hi || hash.hi == bound.hi && hash.lo < bound.lo;
                &&& after.phase == Phase::Sortition(hash) <==> below
                &&& below <==> hash.value() < bound.value()
                &&& below ==> after.request() == (RequestView::Sortition {
                    header_hash: hash,
                    difficulty: bound,
                })
                &&& !below ==> match self.operating_state {
                    OperatingState::Run(lambda, _) => if lambda == 0 {
                        after.request() is PollControl
                    } else {
                        after.request() == RequestView::Sleep(lambda)
                    },
                    _ => after.request() is PollControl,
                }
                &&& after.operating_state == self.operating_state
                &&& after.header == self.header
                &&& after.contents == self.contents
                &&& after.config == self.config
                &&& after.round == self.round
            }),
    {
        hash.lemma_value_order(self.header.difficulty);
    }

    /// If one hash makes a block, so does every lower one.
    pub proof fn lemma_lower_hash_is_block(self, hash: H256, lower: H256)
        requires
            self.valid(),
            self.phase is HeaderHash,
            self.after_header_hash(hash).phase is Sortition,
            lower.value() <= hash.value(),
        ensures
            self.after_header_hash(lower).phase == Phase::Sortition(lower),
    {
        self.lemma_block_iff_below(hash);
        self.lemma_block_iff_below(lower);
    }

    /// A mined block is left unpublished exactly when the miner runs and is lazy, and the block
    /// has no transactions, no votes, or neither transaction references nor proposer references.
    pub proof fn lemma_unpublished_iff_lazy_and_empty(self, content: ContentView)
        ensures
            self.skips(content) <==> {
                &&& self.operating_state matches OperatingState::Run(_, lazy)
                &&& lazy
                &&& match content {
                    ContentView::Transaction(transactions) => transactions.len() == 0,
                    ContentView::Voter(v) => v.votes.len() == 0,
                    ContentView::Proposer(p) => p.transaction_refs.len() == 0
                        && p.proposer_refs.len() == 0,
                }
            },
    {
    }

    /// A block that refers to a block, votes for one or has a transaction is always published.
    pub proof fn lemma_content_is_published(self, content: ContentView, k: int)
        requires
            match content {
                ContentView::Transaction(transactions) => 0 <= k < transactions.len(),
                ContentView::Voter(v) => 0 <= k < v.votes.len(),
                ContentView::Proposer(p) => 0 <= k < p.transaction_refs.len() || 0 <= k
                    < p.proposer_refs.len(),
            },
        ensures
            !self.skips(content),
    {
    }

    /// A mined block leaves the header and the contents alone. A miner that steps is paused by
    /// it, and any other stays in its state. What the miner then tells itself is the kind of
    /// block that it mined and, for a voter block, the chain.
    pub proof fn lemma_block_handed_out(self, i: int)
        requires
            self.valid(),
            self.phase is Sortition,
            0 <= i < self.contents.len(),
        ensures
            ({
                let content = self.contents[i];
                let after = self.after_sortition(content);
                &&& self.operating_state is Step ==> after.operating_state is Paused
                &&& !(self.operating_state is Step) ==> after.operating_state
                    == self.operating_state
                &&& after.request() is Publish
                &&& i == PROPOSER_INDEX ==> content.update_signal()
                    == ContextUpdateSignal::NewProposerBlock
                &&& i == TRANSACTION_INDEX ==> content.update_signal()
                    == ContextUpdateSignal::NewTransactionBlock
                &&& i >= FIRST_VOTER_INDEX ==> content.update_signal()
                    == ContextUpdateSignal::NewVoterBlock((i - FIRST_VOTER_INDEX) as u16)
                &&& after.header == self.header
                &&& after.contents == self.contents
                &&& after.config == self.config
                &&& after.round == self.round
            }),
    {
        if i >= FIRST_VOTER_INDEX {
            assert(self.contents[FIRST_VOTER_INDEX + (i - FIRST_VOTER_INDEX)] is Voter);
        }
    }

    /// What the miner tells itself of a block is the kind of the block and, for a voter block,
    /// its chain.
    pub proof fn lemma_update_names_kind(content: ContentView, chain: u16)
        ensures
            content.update_signal() == ContextUpdateSignal::NewProposerBlock
                <==> content is Proposer,
            content.update_signal() == ContextUpdateSignal::NewTransactionBlock
                <==> content is Transaction,
            content.update_signal() == ContextUpdateSignal::NewVoterBlock(chain) <==> (
            content matches ContentView::Voter(v) && v.chain_number == chain),
    {
    }

    /// When the block has been handled, a miner that was given an interval sleeps, one that was
    /// not looks for signals, and a paused one waits for a signal.
    pub proof fn lemma_rest_after_block(self)
        requires
            !(self.operating_state is ShutDown),
        ensures
            ({
                let after = self.after_publish();
                &&& match self.operating_state {
                    OperatingState::Run(lambda, _) => if lambda == 0 {
                        after.request() is PollControl
                    } else {
                        after.request() == RequestView::Sleep(lambda)
                    },
                    OperatingState::Paused => after.request() is AwaitControl,
                    _ => after.request() is PollControl,
                }
                &&& after.operating_state == self.operating_state
                &&& after.header == self.header
                &&& after.contents == self.contents
                &&& after.config == self.config
                &&& after.round == self.round
            }),
    {
    }

    /// A miner that has slept looks for signals.
    pub proof fn lemma_awake_after_sleep(self)
        requires
            self.operating_state is Run,
        ensures
            ({
                let after = self.after_sleep();
                &&& after.request() is PollControl
                &&& after.operating_state == self.operating_state
                &&& after.header == self.header
                &&& after.contents == self.contents
                &&& after.config == self.config
                &&& after.round == self.round
            }),
    {
    }

    /// What a request carries is what the miner holds: the chains that were signalled, the number
    /// of transactions that a block takes, its parent, its header, and for the votes the parent
    /// of each voter content in the order of the chains.
    pub proof fn lemma_request_carries(self, c: int)
        ensures
            self.phase is VoterParents ==> self.request() == RequestView::BestVoters(
                self.round.new_voter_block,
            ),
            self.phase is Transactions ==> self.request() == RequestView::Transactions(
                self.config.tx_txs,
            ),
            self.phase is Difficulty ==> self.request() == RequestView::Difficulty(
                self.header.parent,
            ),
            self.phase is HeaderHash ==> self.request() == RequestView::HeaderHash(self.header),
            self.phase matches Phase::Sortition(hash) ==> self.request()
                == (RequestView::Sortition {
                header_hash: hash,
                difficulty: self.header.difficulty,
            }),
            self.phase is Votes ==> {
                &&& self.request() is UnvotedProposers
                &&& self.request()->proposer == self.header.parent
                &&& self.request()->voter_parents.len() == self.config.voter_chains
                &&& 0 <= c < self.config.voter_chains ==> self.request()->voter_parents[c]
                    == self.contents[FIRST_VOTER_INDEX + c]->Voter_0.voter_parent
            },
    {
    }

    /// At every point the proposer content refers to no more transaction blocks than it may, and
    /// once its references are settled it does not refer to the parent of the block.
    pub proof fn lemma_references_keep_to_rules(self)
        requires
            self.valid(),
        ensures
            self.contents[PROPOSER_INDEX as int] matches ContentView::Proposer(p) && {
                &&& p.transaction_refs.len() <= self.config.proposer_tx_refs
                &&& !(self.phase is ProposerRefs) ==> forall|k: int|
                    0 <= k < p.proposer_refs.len() ==> #[trigger] p.proposer_refs[k]
                        != self.header.parent
            },
    {
    }

    /// At every point each content is where it belongs: the proposer content first, then the
    /// transaction content, and then the voter contents in the order of their chains.
    pub proof fn lemma_contents_in_place(self, c: int)
        requires
            self.valid(),
        ensures
            self.contents.len() == 2 + self.config.voter_chains,
            self.contents[0] is Proposer,
            self.contents[1] is Transaction,
            0 <= c < self.config.voter_chains ==> (self.contents[2 + c] matches ContentView::Voter(
                v,
            ) && v.chain_number == c),
    {
        if 0 <= c < self.config.voter_chains {
            assert(self.contents[FIRST_VOTER_INDEX + c] is Voter);
        }
    }
}

/// The first signals are a new proposer block, a new transaction block, and then a new block for
/// each voter chain in order.
pub proof fn lemma_first_signals(voter_chains: u16, c: int)
    ensures
        ({
            let signals = context_view::initial_updates(voter_chains);
            &&& signals.len() == 2 + voter_chains
            &&& signals[0] == ContextUpdateSignal::NewProposerBlock
            &&& signals[1] == ContextUpdateSignal::NewTransactionBlock
            &&& 0 <= c < voter_chains ==> signals[2 + c] == ContextUpdateSignal::NewVoterBlock(
                c as u16,
            )
        }),
{
}

/// The parameters are in order exactly when every voter chain has a genesis block and every
/// content an index that fits in sixteen bits.
pub proof fn lemma_parameters_in_order(config: BlockchainConfig)
    ensures
        config.valid() <==> config.voter_chains <= config.voter_genesis@.len()
            && config.voter_chains <= 65534,
{
}

} // verus!
