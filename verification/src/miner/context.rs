//! The mining loop, as a machine that asks for what it cannot compute.
//!
//! The miner holds the header and the contents of the block that it works on. It says what it
//! waits for ([`Context::request`]), and each kind of reply has a method that takes it in. What
//! the requests ask for (signals, the state of the chains, the time, chance) is up to the caller.

use crate::block::{
    Block, Content, ContentView, Header, ProposerContent, ProposerView, TransactionContent,
    VoterContent, VoterView,
};
use crate::config::{BlockchainConfig, FIRST_VOTER_INDEX, PROPOSER_INDEX, TRANSACTION_INDEX};
use crate::crypto::hash::H256;
use crate::miner::context_view::{self, ContextView, RoundView};
use crate::miner::signals::{
    ContextUpdateSignal, ControlSignal, MerkleUpdate, MinedBlock, OperatingState, Phase, Request,
};
use crate::transaction::Transaction;
use std::collections::BTreeSet;
use vstd::prelude::*;

verus! {

/// What has happened in the current round of the mining loop.
#[derive(Debug)]
struct Round {
    new_transaction_block: bool,
    new_voter_block: Vec<u16>,
    new_proposer_block: bool,
    touched_content: BTreeSet<u16>,
    voter_shift: bool,
}

/// A miner.
#[derive(Debug)]
pub struct Context {
    operating_state: OperatingState,
    header: Header,
    contents: Vec<Content>,
    config: BlockchainConfig,
    phase: Phase,
    round: Round,
}

impl Round {
    spec fn model(self) -> RoundView {
        RoundView {
            new_transaction_block: self.new_transaction_block,
            new_voter_block: self.new_voter_block@,
            new_proposer_block: self.new_proposer_block,
            touched_content: self.touched_content@,
            voter_shift: self.voter_shift,
        }
    }
}

impl View for Context {
    type V = ContextView;

    closed spec fn view(&self) -> ContextView {
        ContextView {
            operating_state: self.operating_state,
            header: self.header,
            contents: self.contents@.map_values(|c: Content| c@),
            config: self.config,
            phase: self.phase,
            round: self.round.model(),
        }
    }
}

/// A miner that is paused, on top of the genesis blocks.
pub fn new(config: BlockchainConfig, timestamp: u128) -> (context: Context)
    requires
        config.valid(),
    ensures
        context.wf(),
        context@.initial(config, timestamp),
{
    let mut contents: Vec<Content> = Vec::new();
    contents.push(
        Content::Proposer(
            ProposerContent { transaction_refs: Vec::new(), proposer_refs: Vec::new() },
        ),
    );
    contents.push(Content::Transaction(TransactionContent { transactions: Vec::new() }));
    let ghost wanted = context_view::initial_contents(config);
    assert(contents@[0]@ =~= wanted[0]);
    assert(contents@[1]@ =~= wanted[1]);
    let mut voter_idx: u16 = 0;
    while voter_idx < config.voter_chains
        invariant
            config.valid(),
            wanted == context_view::initial_contents(config),
            voter_idx <= config.voter_chains,
            contents@.len() == FIRST_VOTER_INDEX + voter_idx,
            forall|i: int| 0 <= i < contents@.len() ==> #[trigger] contents@[i]@ == wanted[i],
        decreases config.voter_chains - voter_idx,
    {
        let content = VoterContent {
            chain_number: voter_idx,
            voter_parent: config.voter_genesis[voter_idx as usize],
            votes: Vec::new(),
        };
        assert(content@.votes =~= Seq::empty());
        contents.push(Content::Voter(content));
        voter_idx = voter_idx + 1;
    }
    let header = Header {
        parent: config.proposer_genesis,
        timestamp,
        nonce: 0,
        content_merkle_root: H256::zero(),
        extra_content: [0u8; 32],
        difficulty: config.default_difficulty,
    };
    let round = Round {
        new_transaction_block: false,
        new_voter_block: Vec::new(),
        new_proposer_block: false,
        touched_content: BTreeSet::new(),
        voter_shift: false,
    };
    let context = Context {
        operating_state: OperatingState::Paused,
        header,
        contents,
        config,
        phase: Phase::Control,
        round,
    };
    proof {
        assert(context@.contents =~= wanted);
        assert(context@.round =~= RoundView::quiet());
        assert(context@.header.extra_content@ =~= Seq::new(32, |i: int| 0u8));
    }
    context
}

/// The signals with which a miner is told to update all its contents.
pub fn initial_updates(voter_chains: u16) -> (signals: Vec<ContextUpdateSignal>)
    ensures
        signals@ == context_view::initial_updates(voter_chains),
{
    let mut signals: Vec<ContextUpdateSignal> = Vec::new();
    signals.push(ContextUpdateSignal::NewProposerBlock);
    signals.push(ContextUpdateSignal::NewTransactionBlock);
    let mut voter_chain: u16 = 0;
    while voter_chain < voter_chains
        invariant
            voter_chain <= voter_chains,
            signals@ =~= context_view::initial_updates(voter_chain),
        decreases voter_chains - voter_chain,
    {
        signals.push(ContextUpdateSignal::NewVoterBlock(voter_chain));
        voter_chain = voter_chain + 1;
    }
    signals
}

impl Context {
    /// What holds of every miner.
    pub open spec fn wf(&self) -> bool {
        self@.valid()
    }

    /// The header of the block that is being mined.
    pub fn header(&self) -> (header: Header)
        ensures
            header == self@.header,
    {
        self.header
    }

    /// The contents of which the hash of the header will select one.
    pub fn contents(&self) -> (contents: &Vec<Content>)
        ensures
            contents@.map_values(|c: Content| c@) == self@.contents,
    {
        &self.contents
    }

    /// What the miner is doing.
    pub fn operating_state(&self) -> (state: OperatingState)
        ensures
            state == self@.operating_state,
    {
        self.operating_state
    }

    /// What the miner is waiting for.
    pub fn phase(&self) -> (phase: Phase)
        ensures
            phase == self@.phase,
    {
        self.phase
    }

    /// What the miner asks for.
    pub fn request(&self) -> (request: Request)
        requires
            self.wf(),
        ensures
            request@ == self@.request(),
    {
        match self.phase {
            Phase::Control => Request::AwaitControl,
            Phase::Poll => Request::PollControl,
            Phase::Stopped => Request::Stop,
            Phase::Updates => Request::DrainUpdates,
            Phase::VoterParents => {
                let chains = self.round.new_voter_block.clone();
                assert(chains@ =~= self@.round.new_voter_block);
                Request::BestVoters(chains)
            },
            Phase::Transactions => Request::Transactions(self.config.tx_txs),
            Phase::TransactionRefs => Request::UnreferredTransactions,
            Phase::NewParent => Request::BestProposer,
            Phase::ProposerRefs => Request::UnreferredBlocks,
            Phase::ParentCheck => Request::BestProposer,
            Phase::Votes => Request::UnvotedProposers {
                voter_parents: self.voter_parents(),
                proposer: self.header.parent,
            },
            Phase::Difficulty => Request::Difficulty(self.header.parent),
            Phase::MerkleRoot => Request::MerkleRoot(self.merkle_update()),
            Phase::Nonce => Request::Nonce,
            Phase::HeaderHash => Request::HeaderHash(self.header),
            Phase::Sortition(header_hash) => Request::Sortition {
                header_hash,
                difficulty: self.header.difficulty,
            },
            Phase::Publish => Request::Publish,
            Phase::Sleep => match self.operating_state {
                OperatingState::Run(lambda, _) => Request::Sleep(lambda),
                _ => Request::Stop,
            },
        }
    }

    /// The parent of each voter content.
    fn voter_parents(&self) -> (parents: Vec<H256>)
        requires
            self.wf(),
        ensures
            parents@ == Seq::new(
                self@.config.voter_chains as nat,
                |c: int| self@.voter(c).voter_parent,
            ),
    {
        let mut parents: Vec<H256> = Vec::new();
        let mut voter_chain: u16 = 0;
        while voter_chain < self.config.voter_chains
            invariant
                self.wf(),
                voter_chain <= self.config.voter_chains,
                parents@ =~= Seq::new(
                    voter_chain as nat,
                    |c: int| self@.voter(c).voter_parent,
                ),
            decreases self.config.voter_chains - voter_chain,
        {
            assert(self@.contents[FIRST_VOTER_INDEX + voter_chain] is Voter);
            let chain_id: u16 = FIRST_VOTER_INDEX + voter_chain;
            if let Content::Voter(c) = &self.contents[chain_id as usize] {
                parents.push(c.voter_parent);
            }
            voter_chain = voter_chain + 1;
        }
        parents
    }

    /// How the Merkle tree is brought up to date.
    fn merkle_update(&self) -> (update: MerkleUpdate)
        requires
            self.wf(),
        ensures
            update@ == self@.round.merkle_update(),
    {
        if self.round.new_proposer_block || self.round.voter_shift {
            // if there has been a new proposer block, simply rebuild the merkle tree
            return MerkleUpdate::Rebuild;
        }
        // if there has not been a new proposer block, update individual entries
        let mut entries: Vec<u16> = Vec::new();
        let ghost chains = self@.round.new_voter_block;
        let mut k: usize = 0;
        while k < self.round.new_voter_block.len()
            invariant
                self.wf(),
                chains == self@.round.new_voter_block,
                k <= chains.len(),
                entries@ =~= chains.take(k as int).map_values(
                    |c: u16| (FIRST_VOTER_INDEX + c) as u16,
                ),
            decreases chains.len() - k,
        {
            let voter_chain = self.round.new_voter_block[k];
            assert(chains[k as int] < self@.config.voter_chains);
            entries.push(FIRST_VOTER_INDEX + voter_chain);
            k = k + 1;
        }
        assert(chains.take(k as int) =~= chains);
        if self.round.new_transaction_block {
            entries.push(TRANSACTION_INDEX);
            if self.round.touched_content.contains(&PROPOSER_INDEX) {
                entries.push(PROPOSER_INDEX);
            }
        }
        assert(entries@ =~= self@.round.entries());
        MerkleUpdate::Entries(entries)
    }

    fn top(&self) -> (phase: Phase)
        ensures
            phase == self@.top(),
    {
        match self.operating_state {
            OperatingState::Paused => Phase::Control,
            OperatingState::ShutDown => Phase::Stopped,
            _ => Phase::Poll,
        }
    }

    fn rest(&self) -> (phase: Phase)
        ensures
            phase == self@.rest(),
    {
        if let OperatingState::Run(i, _) = self.operating_state {
            if i != 0 {
                return Phase::Sleep;
            }
        }
        self.top()
    }

    fn settle_parent(&self) -> (phase: Phase)
        ensures
            phase == self@.settle_parent(),
    {
        if self.round.new_proposer_block {
            Phase::NewParent
        } else {
            Phase::ParentCheck
        }
    }

    fn handle_control_signal(&mut self, signal: ControlSignal)
        ensures
            final(self)@ == (ContextView {
                operating_state: context_view::commanded(signal),
                ..old(self)@
            }),
    {
        match signal {
            ControlSignal::Exit => {
                self.operating_state = OperatingState::ShutDown;
            },
            ControlSignal::Start(i, l) => {
                self.operating_state = OperatingState::Run(i, l);
            },
            ControlSignal::Step => {
                self.operating_state = OperatingState::Step;
            },
        }
    }

    /// Takes in a control signal.
    pub fn on_control(&mut self, signal: ControlSignal)
        requires
            old(self).wf(),
            old(self)@.phase is Control || old(self)@.phase is Poll,
        ensures
            final(self).wf(),
            final(self)@ == old(self)@.after_control(signal),
    {
        let waiting = match self.phase {
            Phase::Control => true,
            _ => false,
        };
        self.handle_control_signal(signal);
        let stopped = match self.operating_state {
            OperatingState::ShutDown => true,
            _ => false,
        };
        self.phase = if waiting || stopped {
            self.top()
        } else {
            Phase::Updates
        };
    }

    /// Takes in that there is no control signal.
    pub fn on_no_control(&mut self)
        requires
            old(self).wf(),
            old(self)@.phase is Poll,
        ensures
            final(self).wf(),
            final(self)@ == old(self)@.after_silence(),
    {
        self.phase = Phase::Updates;
    }

    /// Takes in the update signals.
    pub fn on_updates(&mut self, signals: &Vec<ContextUpdateSignal>)
        requires
            old(self).wf(),
            old(self)@.phase is Updates,
            forall|c: u16| #[trigger]
                signals@.contains(ContextUpdateSignal::NewVoterBlock(c))
                    ==> c < old(self)@.config.voter_chains,
        ensures
            final(self).wf(),
            context_view::lists_voters(
                final(self)@.round.new_voter_block,
                signals@,
            ),
            final(self)@ == old(self)@.after_updates(
                signals@,
                final(self)@.round.new_voter_block,
            ),
    {
        let mut new_transaction_block: bool = false;
        let mut new_voter_block: BTreeSet<u16> = BTreeSet::new();
        let mut new_proposer_block: bool = false;
        let mut i: usize = 0;
        while i < signals.len()
            invariant
                i <= signals@.len(),
                new_transaction_block == signals@.take(i as int).contains(
                    ContextUpdateSignal::NewTransactionBlock,
                ),
                new_proposer_block == signals@.take(i as int).contains(
                    ContextUpdateSignal::NewProposerBlock,
                ),
                forall|c: u16| #[trigger]
                    new_voter_block@.contains(c) == signals@.take(i as int).contains(
                        ContextUpdateSignal::NewVoterBlock(c),
                    ),
            decreases signals@.len() - i,
        {
            let ghost seen = signals@.take(i as int);
            let ghost next = signals@.take(i + 1);
            let sig = signals[i];
            proof {
                assert(next =~= seen.push(sig));
                assert forall|s: ContextUpdateSignal| #[trigger]
                    next.contains(s) == (seen.contains(s) || s == sig) by {
                    if seen.contains(s) {
                        let k = choose|k: int| 0 <= k < seen.len() && seen[k] == s;
                        assert(next[k] == s);
                    }
                    assert(next[i as int] == sig);
                }
            }
            match sig {
                ContextUpdateSignal::NewProposerBlock => {
                    new_proposer_block = true;
                },
                ContextUpdateSignal::NewVoterBlock(chain) => {
                    new_voter_block.insert(chain);
                },
                ContextUpdateSignal::NewTransactionBlock => {
                    new_transaction_block = true;
                },
            }
            i = i + 1;
        }
        assert(signals@.take(i as int) =~= signals@);
        let chains = listed(&new_voter_block);
        self.round = Round {
            new_transaction_block,
            new_voter_block: chains,
            new_proposer_block,
            touched_content: BTreeSet::new(),
            voter_shift: false,
        };
        self.phase = Phase::VoterParents;
        proof {
            let listed = self@.round.new_voter_block;
            assert forall|k: int| 0 <= k < listed.len() implies #[trigger] listed[k]
                < self@.config.voter_chains by {
                assert(listed.contains(listed[k]));
                assert(signals@.contains(ContextUpdateSignal::NewVoterBlock(listed[k])));
            }
            assert(self@.round.touched_content =~= Set::empty());
        }
    }

    /// Takes in the best blocks of the voter chains that were asked about, in the order of the
    /// request.
    pub fn on_voter_parents(&mut self, parents: &Vec<H256>)
        requires
            old(self).wf(),
            old(self)@.phase is VoterParents,
            parents@.len() == old(self)@.round.new_voter_block.len(),
        ensures
            final(self).wf(),
            final(self)@ == old(self)@.after_voter_parents(parents@),
    {
        let ghost chains = self@.round.new_voter_block;
        let mut k: usize = 0;
        while k < parents.len()
            invariant
                old(self).wf(),
                old(self)@.phase is VoterParents,
                k <= parents@.len(),
                parents@.len() == chains.len(),
                chains == old(self)@.round.new_voter_block,
                self.operating_state == old(self).operating_state,
                self.header == old(self).header,
                self.config == old(self).config,
                self.phase == old(self).phase,
                self.round.new_transaction_block == old(self).round.new_transaction_block,
                self.round.new_voter_block == old(self).round.new_voter_block,
                self.round.new_proposer_block == old(self).round.new_proposer_block,
                self@.contents.len() == old(self)@.contents.len(),
                forall|i: int|
                    0 <= i < self@.contents.len() && !(exists|j: int|
                        0 <= j < k && #[trigger] chains[j] == i - FIRST_VOTER_INDEX)
                        ==> #[trigger] self@.contents[i] == old(self)@.contents[i],
                forall|j: int|
                    0 <= j < k ==> self@.contents[FIRST_VOTER_INDEX + #[trigger] chains[j]]
                        == ContentView::Voter(
                        VoterView {
                            voter_parent: parents@[j],
                            ..old(self)@.voter(chains[j] as int)
                        },
                    ),
                self.round.voter_shift == (exists|j: int|
                    0 <= j < k && parents@[j] != old(self)@.voter(
                        #[trigger] chains[j] as int,
                    ).voter_parent),
                forall|i: u16| #[trigger]
                    self.round.touched_content@.contains(i) == (exists|j: int|
                        0 <= j < k && #[trigger] chains[j] == i - FIRST_VOTER_INDEX && parents@[j]
                            != old(self)@.voter(chains[j] as int).voter_parent),
            decreases parents@.len() - k,
        {
            let voter_chain = self.round.new_voter_block[k];
            let chain_id: u16 = FIRST_VOTER_INDEX + voter_chain;
            let voter_parent = parents[k];
            let ghost before = self@.contents;
            assert(old(self)@.contents[FIRST_VOTER_INDEX + voter_chain] is Voter);
            assert(before[chain_id as int] == old(self)@.contents[chain_id as int]);
            let shifted = set_voter_parent(&mut self.contents, chain_id as usize, voter_parent);
            if shifted {
                // mark that we have shifted a vote
                self.round.voter_shift = true;
                self.round.touched_content.insert(chain_id);
            }
            proof {
                assert(chains[k as int] == voter_chain);
                assert forall|i: int|
                    0 <= i < self@.contents.len() && !(exists|j: int|
                        0 <= j < k + 1 && #[trigger] chains[j] == i
                            - FIRST_VOTER_INDEX) implies #[trigger] self@.contents[i]
                    == old(self)@.contents[i] by {
                    assert(i != chain_id);
                    assert(!(exists|j: int|
                        0 <= j < k && #[trigger] chains[j] == i - FIRST_VOTER_INDEX));
                    assert(self@.contents[i] == before[i]);
                }
            }
            k = k + 1;
        }
        self.phase = if self.round.new_transaction_block {
            Phase::Transactions
        } else {
            self.settle_parent()
        };
        proof {
            let after = old(self)@.after_voter_parents(parents@);
            assert(self@.contents =~= after.contents) by {
                assert forall|i: int| 0 <= i < self@.contents.len() implies self@.contents[i]
                    == after.contents[i] by {
                    if exists|j: int|
                        0 <= j < chains.len() && #[trigger] chains[j] == i - FIRST_VOTER_INDEX {
                        let j = choose|j: int|
                            0 <= j < chains.len() && #[trigger] chains[j] == i - FIRST_VOTER_INDEX;
                        assert(old(self)@.contents[FIRST_VOTER_INDEX + chains[j]] is Voter);
                        assert(self@.contents[FIRST_VOTER_INDEX + chains[j]] is Voter);
                    }
                }
            }
            assert(self@.round.touched_content =~= after.round.touched_content);
            assert(self@.round.voter_shift == after.round.voter_shift) by {
                if self@.round.voter_shift {
                    let j = choose|j: int|
                        0 <= j < chains.len() && parents@[j] != old(self)@.voter(
                            #[trigger] chains[j] as int,
                        ).voter_parent;
                    assert(old(self)@.parent_changed(parents@, chains[j] as int));
                }
            }
            assert(self@ =~= after);
            old(self)@.lemma_voter_parents_valid(parents@);
        }
    }

    /// Takes in the transactions for the next transaction block.
    pub fn on_transactions(&mut self, transactions: Vec<Transaction>)
        requires
            old(self).wf(),
            old(self)@.phase is Transactions,
        ensures
            final(self).wf(),
            final(self)@ == old(self)@.after_transactions(
                transactions@.map_values(|t: Transaction| t@),
            ),
    {
        let ghost views = transactions@.map_values(|t: Transaction| t@);
        self.contents.set(
            TRANSACTION_INDEX as usize,
            Content::Transaction(TransactionContent { transactions }),
        );
        self.round.touched_content.insert(TRANSACTION_INDEX);
        let refs = match &self.contents[PROPOSER_INDEX as usize] {
            Content::Proposer(c) => c.transaction_refs.len(),
            _ => 0,
        };
        // only update the references if we are not running out of quota
        self.phase = if !self.round.new_proposer_block && refs
            < self.config.proposer_tx_refs as usize {
            Phase::TransactionRefs
        } else {
            self.settle_parent()
        };
        proof {
            let after = old(self)@.after_transactions(views);
            assert(self@.contents =~= after.contents);
            assert(self@ =~= after);
            old(self)@.lemma_transactions_valid(views);
        }
    }

    /// Takes in the transaction blocks that no proposer block refers to.
    pub fn on_transaction_refs(&mut self, refs: Vec<H256>)
        requires
            old(self).wf(),
            old(self)@.phase is TransactionRefs,
        ensures
            final(self).wf(),
            final(self)@ == old(self)@.after_transaction_refs(refs@),
    {
        let kept = truncated(refs, self.config.proposer_tx_refs);
        set_transaction_refs(&mut self.contents, kept);
        self.round.touched_content.insert(PROPOSER_INDEX);
        self.phase = Phase::ParentCheck;
        proof {
            let after = old(self)@.after_transaction_refs(refs@);
            assert(self@.contents =~= after.contents);
            assert(self@ =~= after);
            old(self)@.lemma_transaction_refs_valid(refs@);
        }
    }

    /// Takes in the best proposer block.
    pub fn on_best_proposer(&mut self, best: H256)
        requires
            old(self).wf(),
            old(self)@.phase is NewParent || old(self)@.phase is ParentCheck,
        ensures
            final(self).wf(),
            final(self)@ == old(self)@.after_best_proposer(best),
    {
        let checking = match self.phase {
            Phase::ParentCheck => true,
            _ => false,
        };
        if checking && self.header.parent == best {
            self.phase = if self.round.new_proposer_block || self.round.new_voter_block.len() > 0 {
                Phase::Votes
            } else {
                Phase::Difficulty
            };
        } else {
            self.round.new_proposer_block = true;
            self.header.parent = best;
            self.phase = Phase::ProposerRefs;
        }
        proof {
            assert(self@ =~= old(self)@.after_best_proposer(best));
            assert(self@.shaped());
        }
    }

    /// Takes in the blocks that no proposer block refers to.
    pub fn on_proposer_refs(&mut self, transactions: Vec<H256>, proposers: Vec<H256>)
        requires
            old(self).wf(),
            old(self)@.phase is ProposerRefs,
        ensures
            final(self).wf(),
            final(self)@ == old(self)@.after_proposer_refs(transactions@, proposers@),
    {
        let transaction_refs = truncated(transactions, self.config.proposer_tx_refs);
        let proposer_refs = without(&proposers, self.header.parent);
        self.contents.set(
            PROPOSER_INDEX as usize,
            Content::Proposer(ProposerContent { transaction_refs, proposer_refs }),
        );
        self.round.touched_content.insert(PROPOSER_INDEX);
        self.phase = Phase::ParentCheck;
        proof {
            let after = old(self)@.after_proposer_refs(transactions@, proposers@);
            assert(self@.contents =~= after.contents);
            assert(self@ =~= after);
            old(self)@.lemma_proposer_refs_valid(transactions@, proposers@);
        }
    }

    /// Takes in the votes of each voter chain.
    pub fn on_votes(&mut self, votes: Vec<Vec<H256>>)
        requires
            old(self).wf(),
            old(self)@.phase is Votes,
            votes@.len() == old(self)@.config.voter_chains,
        ensures
            final(self).wf(),
            final(self)@ == old(self)@.after_votes(votes@.map_values(|v: Vec<H256>| v@)),
    {
        let ghost views = votes@.map_values(|v: Vec<H256>| v@);
        let mut votes = votes;
        let ghost all = votes@;
        let mut voter_chain: u16 = self.config.voter_chains;
        while voter_chain > 0
            invariant
                old(self).wf(),
                voter_chain <= self.config.voter_chains,
                votes@ == all.take(voter_chain as int),
                all.len() == self.config.voter_chains,
                self.operating_state == old(self).operating_state,
                self.header == old(self).header,
                self.config == old(self).config,
                self.phase == old(self).phase,
                self.round.new_transaction_block == old(self).round.new_transaction_block,
                self.round.new_voter_block == old(self).round.new_voter_block,
                self.round.new_proposer_block == old(self).round.new_proposer_block,
                self.round.voter_shift == old(self).round.voter_shift,
                self@.contents.len() == old(self)@.contents.len(),
                forall|i: int|
                    0 <= i < FIRST_VOTER_INDEX + voter_chain ==> #[trigger] self@.contents[i]
                        == old(self)@.contents[i],
                forall|i: int|
                    FIRST_VOTER_INDEX + voter_chain <= i < self@.contents.len()
                        ==> #[trigger] self@.contents[i] == ContentView::Voter(
                        VoterView {
                            votes: all[i - FIRST_VOTER_INDEX]@,
                            ..old(self)@.voter(i - FIRST_VOTER_INDEX)
                        },
                    ),
                forall|i: u16| #[trigger]
                    self.round.touched_content@.contains(i) == (
                    old(self).round.touched_content@.contains(i) || FIRST_VOTER_INDEX + voter_chain
                        <= i < self@.contents.len()),
            decreases voter_chain,
        {
            voter_chain = voter_chain - 1;
            let chain_id: u16 = FIRST_VOTER_INDEX + voter_chain;
            let ghost before = self@.contents;
            assert(old(self)@.contents[FIRST_VOTER_INDEX + voter_chain] is Voter);
            assert(before[chain_id as int] == old(self)@.contents[chain_id as int]);
            let chain_votes = votes.pop().unwrap();
            set_votes(&mut self.contents, chain_id as usize, chain_votes);
            self.round.touched_content.insert(chain_id);
            proof {
                assert(votes@ =~= all.take(voter_chain as int));
                assert forall|i: int|
                    0 <= i < self@.contents.len() && i
                        != chain_id implies #[trigger] self@.contents[i] == before[i] by {}
            }
        }
        self.phase = Phase::Difficulty;
        proof {
            let after = old(self)@.after_votes(views);
            assert(self@.contents =~= after.contents);
            assert(self@.round.touched_content =~= after.round.touched_content);
            assert(self@ =~= after);
            old(self)@.lemma_votes_valid(views);
        }
    }

    /// Calculate the difficulty for the block to be mined, from that of its parent if the parent
    /// is known.
    fn get_difficulty(&self, found: Option<H256>) -> (difficulty: H256)
        ensures
            difficulty == (match found {
                Some(d) => d,
                None => self@.config.default_difficulty,
            }),
    {
        match found {
            Some(difficulty) => difficulty,
            None => self.config.default_difficulty,
        }
    }

    /// Takes in the difficulty of the parent block, if that block is known.
    pub fn on_difficulty(&mut self, found: Option<H256>)
        requires
            old(self).wf(),
            old(self)@.phase is Difficulty,
        ensures
            final(self).wf(),
            final(self)@ == old(self)@.after_difficulty(found),
    {
        self.header.difficulty = self.get_difficulty(found);
        self.phase = if self.round.new_proposer_block || self.round.new_voter_block.len() > 0
            || self.round.new_transaction_block {
            Phase::MerkleRoot
        } else {
            Phase::Nonce
        };
        assert(self@ =~= old(self)@.after_difficulty(found));
        assert(self@.shaped());
    }

    /// Takes in the root of the Merkle tree.
    pub fn on_merkle_root(&mut self, root: H256)
        requires
            old(self).wf(),
            old(self)@.phase is MerkleRoot,
        ensures
            final(self).wf(),
            final(self)@ == old(self)@.after_merkle_root(root),
    {
        self.header.content_merkle_root = root;
        self.phase = Phase::Nonce;
        assert(self@ =~= old(self)@.after_merkle_root(root));
        assert(self@.shaped());
    }

    /// Takes in a nonce and the time.
    pub fn on_nonce(&mut self, nonce: u32, timestamp: u128)
        requires
            old(self).wf(),
            old(self)@.phase is Nonce,
        ensures
            final(self).wf(),
            final(self)@ == old(self)@.after_nonce(nonce, timestamp),
    {
        self.header.nonce = nonce;
        self.header.timestamp = timestamp;
        self.phase = Phase::HeaderHash;
        assert(self@ =~= old(self)@.after_nonce(nonce, timestamp));
        assert(self@.shaped());
    }

    /// Takes in the hash of the header.
    pub fn on_header_hash(&mut self, hash: H256)
        requires
            old(self).wf(),
            old(self)@.phase is HeaderHash,
        ensures
            final(self).wf(),
            final(self)@ == old(self)@.after_header_hash(hash),
    {
        self.phase = if hash.is_below(&self.header.difficulty) {
            Phase::Sortition(hash)
        } else {
            self.rest()
        };
        assert(self@.shaped());
    }

    /// Given a valid header and the content that its hash selected, create the block
    fn produce_block(&self, sortition_id: u16, sortition_proof: Vec<H256>) -> (block: Block)
        requires
            sortition_id < self@.contents.len(),
        ensures
            block.header == self@.header,
            block.content@ == self@.contents[sortition_id as int],
            block.sortition_proof == sortition_proof,
    {
        Block {
            header: self.header,
            content: self.contents[sortition_id as usize].clone(),
            sortition_proof,
        }
    }

    /// Takes in which content the hash of the header selected and its Merkle proof, and hands out
    /// the block that was mined.
    pub fn on_sortition(&mut self, sortition_id: u16, sortition_proof: Vec<H256>) -> (mined:
        MinedBlock)
        requires
            old(self).wf(),
            old(self)@.phase is Sortition,
            sortition_id < old(self)@.contents.len(),
        ensures
            final(self).wf(),
            ({
                let content = old(self)@.contents[sortition_id as int];
                &&& final(self)@ == old(self)@.after_sortition(content)
                &&& mined.block.header == old(self)@.header
                &&& mined.block.content@ == content
                &&& mined.block.sortition_proof == sortition_proof
                &&& old(self)@.phase == Phase::Sortition(mined.header_hash)
                &&& mined.publish == !old(self)@.skips(content)
                &&& mined.update == content.update_signal()
            }),
    {
        let header_hash = match self.phase {
            Phase::Sortition(hash) => hash,
            _ => H256::zero(),
        };
        let block = self.produce_block(sortition_id, sortition_proof);
        //if the mined block is empty and we are lazy, we ignore it
        let skip = match self.operating_state {
            OperatingState::Run(_, lazy) => lazy && block.content.is_empty(),
            _ => false,
        };
        // if we are stepping, pause the miner loop
        if !skip {
            if let OperatingState::Step = self.operating_state {
                self.operating_state = OperatingState::Paused;
            }
        }
        // after we mined this block, we update the context based on this block
        let update = match &block.content {
            Content::Proposer(_) => ContextUpdateSignal::NewProposerBlock,
            Content::Voter(content) => ContextUpdateSignal::NewVoterBlock(content.chain_number),
            Content::Transaction(_) => ContextUpdateSignal::NewTransactionBlock,
        };
        self.phase = Phase::Publish;
        assert(self@.shaped());
        MinedBlock { block, header_hash, publish: !skip, update }
    }

    /// Takes in that the mined block has been handled.
    pub fn on_published(&mut self)
        requires
            old(self).wf(),
            old(self)@.phase is Publish,
        ensures
            final(self).wf(),
            final(self)@ == old(self)@.after_publish(),
    {
        self.phase = self.rest();
        assert(self@.shaped());
    }

    /// Takes in that the interval between blocks is over.
    pub fn on_sleep_over(&mut self)
        requires
            old(self).wf(),
            old(self)@.phase is Sleep,
        ensures
            final(self).wf(),
            final(self)@ == old(self)@.after_sleep(),
    {
        self.phase = self.top();
        assert(self@.shaped());
    }
}

/// Sets the parent of a voter content, and says whether it was another.
fn set_voter_parent(contents: &mut Vec<Content>, index: usize, parent: H256) -> (shifted: bool)
    requires
        index < old(contents)@.len(),
        old(contents)@[index as int] is Voter,
    ensures
        final(contents)@.len() == old(contents)@.len(),
        forall|i: int|
            0 <= i < old(contents)@.len() && i != index ==> #[trigger] final(contents)@[i] == old(
                contents,
            )@[i],
        final(contents)@[index as int]@ == ContentView::Voter(
            VoterView {
                voter_parent: parent,
                ..old(contents)@[index as int]@->Voter_0
            },
        ),
        shifted == (old(contents)@[index as int]@->Voter_0.voter_parent != parent),
{
    match &mut contents[index] {
        Content::Voter(c) => {
            if parent != c.voter_parent {
                c.voter_parent = parent;
                true
            } else {
                false
            }
        },
        _ => false,
    }
}

/// Sets the votes of a voter content.
fn set_votes(contents: &mut Vec<Content>, index: usize, votes: Vec<H256>)
    requires
        index < old(contents)@.len(),
        old(contents)@[index as int] is Voter,
    ensures
        final(contents)@.len() == old(contents)@.len(),
        forall|i: int|
            0 <= i < old(contents)@.len() && i != index ==> #[trigger] final(contents)@[i] == old(
                contents,
            )@[i],
        final(contents)@[index as int]@ == ContentView::Voter(
            VoterView { votes: votes@, ..old(contents)@[index as int]@->Voter_0 },
        ),
{
    match &mut contents[index] {
        Content::Voter(c) => {
            c.votes = votes;
        },
        _ => {},
    }
}

/// Sets the transaction references of the proposer content.
fn set_transaction_refs(contents: &mut Vec<Content>, refs: Vec<H256>)
    requires
        PROPOSER_INDEX < old(contents)@.len(),
        old(contents)@[PROPOSER_INDEX as int] is Proposer,
    ensures
        final(contents)@.len() == old(contents)@.len(),
        forall|i: int|
            0 <= i < old(contents)@.len() && i != PROPOSER_INDEX ==> #[trigger] final(contents)@[i]
                == old(contents)@[i],
        final(contents)@[PROPOSER_INDEX as int]@ == ContentView::Proposer(
            ProposerView {
                transaction_refs: refs@,
                ..old(contents)@[PROPOSER_INDEX as int]@->Proposer_0
            },
        ),
{
    match &mut contents[PROPOSER_INDEX as usize] {
        Content::Proposer(c) => {
            c.transaction_refs = refs;
        },
        _ => {},
    }
}

/// The first `quota` of `refs`.
fn truncated(refs: Vec<H256>, quota: u32) -> (kept: Vec<H256>)
    ensures
        kept@ == context_view::truncated(refs@, quota),
{
    let mut kept = refs;
    kept.truncate(quota as usize);
    kept
}

/// What of `refs` is not `parent`.
fn without(refs: &Vec<H256>, parent: H256) -> (kept: Vec<H256>)
    ensures
        kept@ == refs@.filter(context_view::other_than(parent)),
{
    let mut kept: Vec<H256> = Vec::new();
    let mut i: usize = 0;
    let ghost keep = context_view::other_than(parent);
    proof {
        reveal(Seq::filter);
    }
    while i < refs.len()
        invariant
            i <= refs@.len(),
            keep == context_view::other_than(parent),
            kept@ =~= refs@.take(i as int).filter(keep),
        decreases refs@.len() - i,
    {
        proof {
            reveal(Seq::filter);
            assert(refs@.take(i + 1).drop_last() =~= refs@.take(i as int));
        }
        if refs[i] != parent {
            kept.push(refs[i]);
        }
        i = i + 1;
    }
    assert(refs@.take(i as int) =~= refs@);
    kept
}

/// The elements of a set in ascending order.
fn listed(set: &BTreeSet<u16>) -> (list: Vec<u16>)
    ensures
        forall|i: int, j: int| 0 <= i < j < list@.len() ==> list@[i] < list@[j],
        forall|c: u16| #[trigger] list@.contains(c) <==> set@.contains(c),
{
    broadcast use vstd::laws_cmp::group_laws_cmp;

    let mut list: Vec<u16> = Vec::new();
    let stored = set.iter();
    proof {
        lemma_ascending(vstd::std_specs::iter::IteratorSpec::remaining(&stored));
    }
    let ghost keys = vstd::std_specs::iter::IteratorSpec::remaining(&stored).unref();
    for c in it: stored
        invariant
            list@.len() == it.index(),
            it.seq().unref() == keys,
            keys.to_set() == set@,
            forall|i: int, j: int| 0 <= i < j < it.seq().len() ==> *it.seq()[i] < *it.seq()[j],
            forall|k: int| 0 <= k < list@.len() ==> list@[k] == it.seq().unref()[k],
            it.seq().unref().len() == it.seq().len(),
            forall|k: int| 0 <= k < it.seq().len() ==> it.seq().unref()[k] == *it.seq()[k],
    {
        list.push(*c);
    }
    assert(list@ =~= keys);
    assert forall|c: u16| #[trigger] list@.contains(c) == set@.contains(c) by {
        assert(list@.contains(c) == list@.to_set().contains(c));
    }
    list
}

proof fn lemma_ascending(s: Seq<&u16>)
    requires
        vstd::std_specs::btree::increasing_seq(s),
    ensures
        forall|i: int, j: int| 0 <= i < j < s.len() ==> *s[i] < *s[j],
{
    broadcast use vstd::laws_cmp::group_laws_cmp;

    assert(vstd::laws_cmp::obeys_cmp::<u16>());
    assert(vstd::laws_cmp::obeys_cmp::<&u16>());
    assert forall|i: int, j: int| 0 <= i < j < s.len() implies *s[i] < *s[j] by {
        assert(vstd::std_specs::cmp::OrdSpec::cmp_spec(&s[i], &s[j]) is Less);
    }
}

} // verus!
