//! The state of a miner, and what each reply to a request does to it.

use crate::block::{ContentView, Header, ProposerView, VoterView};
use crate::config::{BlockchainConfig, FIRST_VOTER_INDEX, PROPOSER_INDEX, TRANSACTION_INDEX};
use crate::crypto::hash::H256;
use crate::miner::signals::{
    ContextUpdateSignal, ControlSignal, MerkleView, OperatingState, Phase, RequestView,
};
use crate::transaction::TransactionView;
use vstd::prelude::*;

verus! {

/// What has happened in the current round of the mining loop.
#[verifier::ext_equal]
pub struct RoundView {
    /// Whether a transaction block came.
    pub new_transaction_block: bool,
    /// The chains to which a voter block came, in ascending order.
    pub new_voter_block: Seq<u16>,
    /// Whether a proposer block came.
    pub new_proposer_block: bool,
    /// The contents that were written.
    pub touched_content: Set<u16>,
    /// Whether the parent of a voter content changed.
    pub voter_shift: bool,
}

/// The state of a miner.
#[verifier::ext_equal]
pub struct ContextView {
    pub operating_state: OperatingState,
    pub header: Header,
    pub contents: Seq<ContentView>,
    pub config: BlockchainConfig,
    pub phase: Phase,
    pub round: RoundView,
}

/// Whether `chains` lists, each once and in ascending order, the voter chains of `signals`.
pub open spec fn lists_voters(chains: Seq<u16>, signals: Seq<ContextUpdateSignal>) -> bool {
    &&& forall|i: int, j: int| 0 <= i < j < chains.len() ==> chains[i] < chains[j]
    &&& forall|c: u16| #[trigger]
        chains.contains(c) <==> signals.contains(ContextUpdateSignal::NewVoterBlock(c))
}

/// The first `quota` of `refs`.
pub open spec fn truncated(refs: Seq<H256>, quota: u32) -> Seq<H256> {
    if refs.len() <= quota {
        refs
    } else {
        refs.take(quota as int)
    }
}

/// What is not `parent`.
pub open spec fn other_than(parent: H256) -> spec_fn(H256) -> bool {
    |h: H256| h != parent
}

/// The state that a control signal puts the miner in.
pub open spec fn commanded(signal: ControlSignal) -> OperatingState {
    match signal {
        ControlSignal::Exit => OperatingState::ShutDown,
        ControlSignal::Start(lambda, lazy) => OperatingState::Run(lambda, lazy),
        ControlSignal::Step => OperatingState::Step,
    }
}

/// The contents that a miner starts with: nothing to propose, no transactions, and a voter block
/// on top of each genesis block.
pub open spec fn initial_contents(config: BlockchainConfig) -> Seq<ContentView> {
    Seq::new(
        (FIRST_VOTER_INDEX + config.voter_chains) as nat,
        |i: int|
            if i == PROPOSER_INDEX {
                ContentView::Proposer(
                    ProposerView { transaction_refs: Seq::empty(), proposer_refs: Seq::empty() },
                )
            } else if i == TRANSACTION_INDEX {
                ContentView::Transaction(Seq::empty())
            } else {
                ContentView::Voter(
                    VoterView {
                        chain_number: (i - FIRST_VOTER_INDEX) as u16,
                        voter_parent: config.voter_genesis@[i - FIRST_VOTER_INDEX],
                        votes: Seq::empty(),
                    },
                )
            },
    )
}

/// The signals with which a miner tells itself to update all its contents.
pub open spec fn initial_updates(voter_chains: u16) -> Seq<ContextUpdateSignal> {
    seq![ContextUpdateSignal::NewProposerBlock, ContextUpdateSignal::NewTransactionBlock]
        + Seq::new(voter_chains as nat, |c: int| ContextUpdateSignal::NewVoterBlock(c as u16))
}

impl RoundView {
    /// A round in which nothing has happened.
    pub open spec fn quiet() -> RoundView {
        RoundView {
            new_transaction_block: false,
            new_voter_block: Seq::empty(),
            new_proposer_block: false,
            touched_content: Set::empty(),
            voter_shift: false,
        }
    }

    /// Whether any block came.
    pub open spec fn eventful(self) -> bool {
        self.new_proposer_block || self.new_voter_block.len() > 0 || self.new_transaction_block
    }

    /// Whether the votes are to be counted again.
    pub open spec fn votes_stale(self) -> bool {
        self.new_proposer_block || self.new_voter_block.len() > 0
    }

    /// The indices of the contents whose Merkle entries are replaced where the tree is not
    /// built anew.
    pub open spec fn entries(self) -> Seq<u16> {
        self.new_voter_block.map_values(|c: u16| (FIRST_VOTER_INDEX + c) as u16) + (
        if self.new_transaction_block {
            seq![TRANSACTION_INDEX] + (if self.touched_content.contains(PROPOSER_INDEX) {
                seq![PROPOSER_INDEX]
            } else {
                Seq::empty()
            })
        } else {
            Seq::empty()
        })
    }

    /// How the Merkle tree is brought up to date: it is built anew where a proposer block came or
    /// a voter parent changed, and otherwise only some entries are replaced.
    pub open spec fn merkle_update(self) -> MerkleView {
        if self.new_proposer_block || self.voter_shift {
            MerkleView::Rebuild
        } else {
            MerkleView::Entries(self.entries())
        }
    }
}

impl ContextView {
    /// The proposer content.
    pub open spec fn proposer(self) -> ProposerView {
        self.contents[PROPOSER_INDEX as int]->Proposer_0
    }

    /// The content of voter chain `c`.
    pub open spec fn voter(self, c: int) -> VoterView {
        self.contents[FIRST_VOTER_INDEX + c]->Voter_0
    }

    /// The contents are a proposer content, a transaction content, and a voter content for each
    /// chain.
    pub open spec fn shaped(self) -> bool {
        &&& self.config.valid()
        &&& self.contents.len() == FIRST_VOTER_INDEX + self.config.voter_chains
        &&& self.contents[PROPOSER_INDEX as int] is Proposer
        &&& self.contents[TRANSACTION_INDEX as int] is Transaction
        &&& forall|c: int|
            #![trigger self.contents[FIRST_VOTER_INDEX + c]]
            0 <= c < self.config.voter_chains ==> {
                &&& self.contents[FIRST_VOTER_INDEX + c] is Voter
                &&& self.voter(c).chain_number == c
            }
    }

    /// What the miner waits for says what it is doing, and what has happened in the round.
    pub open spec fn in_step(self) -> bool {
        let round = self.round;
        match self.phase {
            Phase::Control => self.operating_state is Paused,
            Phase::Stopped => self.operating_state is ShutDown,
            Phase::Publish => !(self.operating_state is ShutDown),
            Phase::Sleep => self.operating_state matches OperatingState::Run(i, _) && i != 0,
            _ => {
                &&& self.operating_state is Run || self.operating_state is Step
                &&& self.phase is VoterParents ==> !round.voter_shift && round.touched_content
                    == Set::<u16>::empty()
                &&& self.phase is Transactions ==> round.new_transaction_block
                &&& self.phase is TransactionRefs ==> round.new_transaction_block
                    && !round.new_proposer_block
                &&& self.phase is NewParent ==> round.new_proposer_block
                &&& self.phase is ProposerRefs ==> round.new_proposer_block
                &&& self.phase is Votes ==> round.votes_stale()
                &&& self.phase is MerkleRoot ==> round.eventful()
                &&& self.phase matches Phase::Sortition(hash) ==> hash.value()
                    < self.header.difficulty.value()
            },
        }
    }

    /// What the round has seen and written.
    pub open spec fn round_valid(self) -> bool {
        let round = self.round;
        &&& forall|i: int, j: int|
            0 <= i < j < round.new_voter_block.len() ==> round.new_voter_block[i]
                < round.new_voter_block[j]
        &&& forall|i: int|
            0 <= i < round.new_voter_block.len() ==> #[trigger] round.new_voter_block[i]
                < self.config.voter_chains
        &&& round.voter_shift ==> round.new_voter_block.len() > 0
        &&& forall|i: u16| #[trigger]
            round.touched_content.contains(i) ==> {
                &&& i < self.contents.len()
                &&& i == PROPOSER_INDEX ==> round.new_proposer_block
                    || round.new_transaction_block
                &&& i == TRANSACTION_INDEX ==> round.new_transaction_block
                &&& i >= FIRST_VOTER_INDEX ==> round.votes_stale()
            }
    }

    /// The proposer content keeps to its quota and, but for the moment between a change of the
    /// parent and the refresh of the references, does not refer to the parent.
    pub open spec fn references_valid(self) -> bool {
        &&& self.proposer().transaction_refs.len() <= self.config.proposer_tx_refs
        &&& !(self.phase is ProposerRefs) ==> !self.proposer().proposer_refs.contains(
            self.header.parent,
        )
    }

    /// What holds of every miner.
    pub open spec fn valid(self) -> bool {
        &&& self.shaped()
        &&& self.in_step()
        &&& self.round_valid()
        &&& self.references_valid()
    }

    /// A miner that has not been told anything.
    pub open spec fn initial(self, config: BlockchainConfig, timestamp: u128) -> bool {
        &&& self.operating_state is Paused
        &&& self.phase is Control
        &&& self.config == config
        &&& self.contents == initial_contents(config)
        &&& self.round == RoundView::quiet()
        &&& self.header.parent == config.proposer_genesis
        &&& self.header.timestamp == timestamp
        &&& self.header.nonce == 0
        &&& self.header.content_merkle_root == (H256 { hi: 0, lo: 0 })
        &&& self.header.extra_content@ == Seq::new(32, |i: int| 0u8)
        &&& self.header.difficulty == config.default_difficulty
    }

    /// What the miner waits for at the top of the mining loop.
    pub open spec fn top(self) -> Phase {
        match self.operating_state {
            OperatingState::Paused => Phase::Control,
            OperatingState::ShutDown => Phase::Stopped,
            _ => Phase::Poll,
        }
    }

    /// What the miner waits for when it is done with a nonce.
    pub open spec fn rest(self) -> Phase {
        match self.operating_state {
            OperatingState::Run(lambda, _) if lambda != 0 => Phase::Sleep,
            _ => self.top(),
        }
    }

    /// What the miner waits for when the transaction content and its references are settled.
    pub open spec fn settle_parent(self) -> Phase {
        if self.round.new_proposer_block {
            Phase::NewParent
        } else {
            Phase::ParentCheck
        }
    }

    /// What the miner asks for.
    pub open spec fn request(self) -> RequestView {
        match self.phase {
            Phase::Control => RequestView::AwaitControl,
            Phase::Poll => RequestView::PollControl,
            Phase::Stopped => RequestView::Stop,
            Phase::Updates => RequestView::DrainUpdates,
            Phase::VoterParents => RequestView::BestVoters(self.round.new_voter_block),
            Phase::Transactions => RequestView::Transactions(self.config.tx_txs),
            Phase::TransactionRefs => RequestView::UnreferredTransactions,
            Phase::NewParent => RequestView::BestProposer,
            Phase::ProposerRefs => RequestView::UnreferredBlocks,
            Phase::ParentCheck => RequestView::BestProposer,
            Phase::Votes => RequestView::UnvotedProposers {
                voter_parents: Seq::new(
                    self.config.voter_chains as nat,
                    |c: int| self.voter(c).voter_parent,
                ),
                proposer: self.header.parent,
            },
            Phase::Difficulty => RequestView::Difficulty(self.header.parent),
            Phase::MerkleRoot => RequestView::MerkleRoot(self.round.merkle_update()),
            Phase::Nonce => RequestView::Nonce,
            Phase::HeaderHash => RequestView::HeaderHash(self.header),
            Phase::Sortition(header_hash) => RequestView::Sortition {
                header_hash,
                difficulty: self.header.difficulty,
            },
            Phase::Publish => RequestView::Publish,
            Phase::Sleep => RequestView::Sleep(self.operating_state->Run_0),
        }
    }

    /// After a control signal. A paused miner goes back to the top of the loop; a running one
    /// stops, or takes the updates.
    pub open spec fn after_control(self, signal: ControlSignal) -> ContextView {
        let told = ContextView { operating_state: commanded(signal), ..self };
        ContextView {
            phase: if self.phase is Control || told.operating_state is ShutDown {
                told.top()
            } else {
                Phase::Updates
            },
            ..told
        }
    }

    /// After a look for a control signal that found none.
    pub open spec fn after_silence(self) -> ContextView {
        ContextView { phase: Phase::Updates, ..self }
    }

    /// After the update signals, which are of the voter chains in `chains`.
    pub open spec fn after_updates(
        self,
        signals: Seq<ContextUpdateSignal>,
        chains: Seq<u16>,
    ) -> ContextView {
        ContextView {
            round: RoundView {
                new_transaction_block: signals.contains(ContextUpdateSignal::NewTransactionBlock),
                new_voter_block: chains,
                new_proposer_block: signals.contains(ContextUpdateSignal::NewProposerBlock),
                touched_content: Set::empty(),
                voter_shift: false,
            },
            phase: Phase::VoterParents,
            ..self
        }
    }

    /// Whether a block came to voter chain `c` and the best block of that chain, which is in
    /// `parents` where the chain is in the list, is not the parent that is held.
    pub open spec fn parent_changed(self, parents: Seq<H256>, c: int) -> bool {
        exists|k: int|
            0 <= k < self.round.new_voter_block.len() && #[trigger] self.round.new_voter_block[k]
                == c && parents[k] != self.voter(c).voter_parent
    }

    /// The content at `i` when the best voter blocks are known.
    pub open spec fn with_parent(self, parents: Seq<H256>, i: int) -> ContentView {
        if self.parent_changed(parents, i - FIRST_VOTER_INDEX) {
            let k = choose|k: int|
                0 <= k < self.round.new_voter_block.len()
                    && #[trigger] self.round.new_voter_block[k] == i - FIRST_VOTER_INDEX;
            ContentView::Voter(
                VoterView { voter_parent: parents[k], ..self.voter(i - FIRST_VOTER_INDEX) },
            )
        } else {
            self.contents[i]
        }
    }

    /// After the best blocks of the voter chains to which a block came.
    pub open spec fn after_voter_parents(self, parents: Seq<H256>) -> ContextView {
        ContextView {
            contents: Seq::new(self.contents.len(), |i: int| self.with_parent(parents, i)),
            round: RoundView {
                touched_content: Set::new(
                    |i: u16| self.parent_changed(parents, i - FIRST_VOTER_INDEX),
                ),
                voter_shift: exists|c: int| self.parent_changed(parents, c),
                ..self.round
            },
            phase: if self.round.new_transaction_block {
                Phase::Transactions
            } else {
                self.settle_parent()
            },
            ..self
        }
    }

    /// After the transactions for the next transaction block.
    pub open spec fn after_transactions(self, transactions: Seq<TransactionView>) -> ContextView {
        ContextView {
            contents: self.contents.update(
                TRANSACTION_INDEX as int,
                ContentView::Transaction(transactions),
            ),
            round: RoundView {
                touched_content: self.round.touched_content.insert(TRANSACTION_INDEX),
                ..self.round
            },
            phase: if !self.round.new_proposer_block && self.proposer().transaction_refs.len()
                < self.config.proposer_tx_refs {
                Phase::TransactionRefs
            } else {
                self.settle_parent()
            },
            ..self
        }
    }

    /// After the unreferred transaction blocks, where no proposer block came.
    pub open spec fn after_transaction_refs(self, refs: Seq<H256>) -> ContextView {
        ContextView {
            contents: self.contents.update(
                PROPOSER_INDEX as int,
                ContentView::Proposer(
                    ProposerView {
                        transaction_refs: truncated(refs, self.config.proposer_tx_refs),
                        ..self.proposer()
                    },
                ),
            ),
            round: RoundView {
                touched_content: self.round.touched_content.insert(PROPOSER_INDEX),
                ..self.round
            },
            phase: Phase::ParentCheck,
            ..self
        }
    }

    /// After the best proposer block. If it is the parent already, the references stand.
    /// Otherwise it becomes the parent, and the references are refreshed.
    pub open spec fn after_best_proposer(self, best: H256) -> ContextView {
        if self.phase is ParentCheck && self.header.parent == best {
            ContextView {
                phase: if self.round.votes_stale() {
                    Phase::Votes
                } else {
                    Phase::Difficulty
                },
                ..self
            }
        } else {
            ContextView {
                header: Header { parent: best, ..self.header },
                round: RoundView { new_proposer_block: true, ..self.round },
                phase: Phase::ProposerRefs,
                ..self
            }
        }
    }

    /// After the blocks that no proposer block refers to.
    pub open spec fn after_proposer_refs(
        self,
        transactions: Seq<H256>,
        proposers: Seq<H256>,
    ) -> ContextView {
        ContextView {
            contents: self.contents.update(
                PROPOSER_INDEX as int,
                ContentView::Proposer(
                    ProposerView {
                        transaction_refs: truncated(transactions, self.config.proposer_tx_refs),
                        proposer_refs: proposers.filter(other_than(self.header.parent)),
                    },
                ),
            ),
            round: RoundView {
                touched_content: self.round.touched_content.insert(PROPOSER_INDEX),
                ..self.round
            },
            phase: Phase::ParentCheck,
            ..self
        }
    }

    /// After the votes of each voter chain.
    pub open spec fn after_votes(self, votes: Seq<Seq<H256>>) -> ContextView {
        ContextView {
            contents: Seq::new(
                self.contents.len(),
                |i: int|
                    if i >= FIRST_VOTER_INDEX {
                        ContentView::Voter(
                            VoterView {
                                votes: votes[i - FIRST_VOTER_INDEX],
                                ..self.voter(i - FIRST_VOTER_INDEX)
                            },
                        )
                    } else {
                        self.contents[i]
                    },
            ),
            round: RoundView {
                touched_content: self.round.touched_content.union(
                    Set::new(|i: u16| FIRST_VOTER_INDEX <= i < self.contents.len()),
                ),
                ..self.round
            },
            phase: Phase::Difficulty,
            ..self
        }
    }

    /// After the difficulty of the parent block, if that block is known.
    pub open spec fn after_difficulty(self, found: Option<H256>) -> ContextView {
        ContextView {
            header: Header {
                difficulty: match found {
                    Some(difficulty) => difficulty,
                    None => self.config.default_difficulty,
                },
                ..self.header
            },
            phase: if self.round.eventful() {
                Phase::MerkleRoot
            } else {
                Phase::Nonce
            },
            ..self
        }
    }

    /// After the root of the Merkle tree.
    pub open spec fn after_merkle_root(self, root: H256) -> ContextView {
        ContextView {
            header: Header { content_merkle_root: root, ..self.header },
            phase: Phase::Nonce,
            ..self
        }
    }

    /// After a nonce and the time.
    pub open spec fn after_nonce(self, nonce: u32, timestamp: u128) -> ContextView {
        ContextView {
            header: Header { nonce, timestamp, ..self.header },
            phase: Phase::HeaderHash,
            ..self
        }
    }

    /// After the hash of the header: a hash below the difficulty is a block.
    pub open spec fn after_header_hash(self, hash: H256) -> ContextView {
        ContextView {
            phase: if hash.value() < self.header.difficulty.value() {
                Phase::Sortition(hash)
            } else {
                self.rest()
            },
            ..self
        }
    }

    /// Whether a block with `content` is dropped: a lazy miner drops blocks without content.
    pub open spec fn skips(self, content: ContentView) -> bool {
        self.operating_state matches OperatingState::Run(_, lazy) && lazy && content.is_empty()
    }

    /// After the sortition, which selected `content`: a miner that mines one block is done with
    /// it, unless the block is dropped.
    pub open spec fn after_sortition(self, content: ContentView) -> ContextView {
        ContextView {
            operating_state: if self.operating_state is Step && !self.skips(content) {
                OperatingState::Paused
            } else {
                self.operating_state
            },
            phase: Phase::Publish,
            ..self
        }
    }

    /// After the mined block was handled.
    pub open spec fn after_publish(self) -> ContextView {
        ContextView { phase: self.rest(), ..self }
    }

    /// After the interval between blocks.
    pub open spec fn after_sleep(self) -> ContextView {
        ContextView { phase: self.top(), ..self }
    }
}

} // verus!
