//! What the miner is told, and what it asks for.

use crate::block::{Block, ContentView, Header};
use crate::crypto::hash::H256;
use vstd::prelude::*;

verus! {

/// What the operator tells the miner.
#[derive(Clone, Copy, Debug, PartialEq, Eq, Structural)]
pub enum ControlSignal {
    /// Mine on; the number controls the lambda of interval between block generation, and the
    /// flag says whether blocks without content are dropped.
    Start(u64, bool),
    /// Mine one block.
    Step,
    /// Shut down.
    Exit,
}

/// What the node tells the miner.
#[derive(Clone, Copy, Debug, Ord, Eq, PartialOrd, PartialEq, Structural)]
pub enum ContextUpdateSignal {
    /// New proposer block comes, we need to update all contents' parent
    NewProposerBlock,
    /// New voter block comes, we need to update that voter chain
    NewVoterBlock(u16),
    /// New transaction block comes, we need to update proposer content's tx ref
    NewTransactionBlock,
}

/// What the miner is doing.
#[derive(Clone, Copy, Debug, PartialEq, Eq, Structural)]
pub enum OperatingState {
    Paused,
    Run(u64, bool),
    Step,
    ShutDown,
}

/// What the miner is waiting for.
#[derive(Clone, Copy, Debug, PartialEq, Eq, Structural)]
pub enum Phase {
    /// A control signal, for as long as it takes.
    Control,
    /// A control signal, if there is one.
    Poll,
    /// Nothing: the miner has shut down.
    Stopped,
    /// The update signals that have come in.
    Updates,
    /// The best block of each voter chain that has changed.
    VoterParents,
    /// The transactions for the next transaction block.
    Transactions,
    /// The transaction blocks that no proposer block refers to.
    TransactionRefs,
    /// The best proposer block, which becomes the parent.
    NewParent,
    /// The blocks that no proposer block refers to.
    ProposerRefs,
    /// The best proposer block, which should still be the parent.
    ParentCheck,
    /// The proposer blocks that each voter chain has not voted on.
    Votes,
    /// The difficulty that the parent sets.
    Difficulty,
    /// The root of the updated Merkle tree.
    MerkleRoot,
    /// A nonce and the time.
    Nonce,
    /// The hash of the header.
    HeaderHash,
    /// The content that the hash of the header selects.
    Sortition(H256),
    /// That the mined block has been handled.
    Publish,
    /// The end of the interval between blocks.
    Sleep,
}

/// How the Merkle tree over the contents is brought up to date.
#[derive(Debug)]
pub enum MerkleUpdate {
    /// Build it anew.
    Rebuild,
    /// Replace the entries at these indices, in this order.
    Entries(Vec<u16>),
}

/// What a [`MerkleUpdate`] holds.
#[verifier::ext_equal]
pub enum MerkleView {
    Rebuild,
    Entries(Seq<u16>),
}

impl View for MerkleUpdate {
    type V = MerkleView;

    open spec fn view(&self) -> MerkleView {
        match self {
            MerkleUpdate::Rebuild => MerkleView::Rebuild,
            MerkleUpdate::Entries(entries) => MerkleView::Entries(entries@),
        }
    }
}

/// What the miner asks for.
#[derive(Debug)]
pub enum Request {
    /// Wait for a control signal.
    AwaitControl,
    /// Look for a control signal.
    PollControl,
    /// Leave the mining loop.
    Stop,
    /// Take the update signals that have come in.
    DrainUpdates,
    /// The best block of each of these voter chains.
    BestVoters(Vec<u16>),
    /// So many transactions from the memory pool.
    Transactions(u32),
    /// The transaction blocks that no proposer block refers to.
    UnreferredTransactions,
    /// The best proposer block.
    BestProposer,
    /// The transaction blocks and the proposer blocks that no proposer block refers to.
    UnreferredBlocks,
    /// For each of these voter blocks, the proposer blocks up to `proposer` that its chain has
    /// not voted on.
    UnvotedProposers { voter_parents: Vec<H256>, proposer: H256 },
    /// The difficulty of this block.
    Difficulty(H256),
    /// The root of the Merkle tree after this update.
    MerkleRoot(MerkleUpdate),
    /// A nonce and the time.
    Nonce,
    /// The hash of this header.
    HeaderHash(Header),
    /// The content that this hash selects under this difficulty, and its Merkle proof.
    Sortition { header_hash: H256, difficulty: H256 },
    /// Handle the mined block.
    Publish,
    /// Sleep for what is left of an interval with this mean, in microseconds.
    Sleep(u64),
}

/// What a [`Request`] holds.
#[verifier::ext_equal]
pub enum RequestView {
    AwaitControl,
    PollControl,
    Stop,
    DrainUpdates,
    BestVoters(Seq<u16>),
    Transactions(u32),
    UnreferredTransactions,
    BestProposer,
    UnreferredBlocks,
    UnvotedProposers { voter_parents: Seq<H256>, proposer: H256 },
    Difficulty(H256),
    MerkleRoot(MerkleView),
    Nonce,
    HeaderHash(Header),
    Sortition { header_hash: H256, difficulty: H256 },
    Publish,
    Sleep(u64),
}

impl View for Request {
    type V = RequestView;

    open spec fn view(&self) -> RequestView {
        match self {
            Request::AwaitControl => RequestView::AwaitControl,
            Request::PollControl => RequestView::PollControl,
            Request::Stop => RequestView::Stop,
            Request::DrainUpdates => RequestView::DrainUpdates,
            Request::BestVoters(chains) => RequestView::BestVoters(chains@),
            Request::Transactions(n) => RequestView::Transactions(*n),
            Request::UnreferredTransactions => RequestView::UnreferredTransactions,
            Request::BestProposer => RequestView::BestProposer,
            Request::UnreferredBlocks => RequestView::UnreferredBlocks,
            Request::UnvotedProposers { voter_parents, proposer } => {
                RequestView::UnvotedProposers {
                    voter_parents: voter_parents@,
                    proposer: *proposer,
                }
            },
            Request::Difficulty(hash) => RequestView::Difficulty(*hash),
            Request::MerkleRoot(update) => RequestView::MerkleRoot(update@),
            Request::Nonce => RequestView::Nonce,
            Request::HeaderHash(header) => RequestView::HeaderHash(*header),
            Request::Sortition { header_hash, difficulty } => RequestView::Sortition {
                header_hash: *header_hash,
                difficulty: *difficulty,
            },
            Request::Publish => RequestView::Publish,
            Request::Sleep(mean) => RequestView::Sleep(*mean),
        }
    }
}

/// The view of a request keeps what the request carries.
pub proof fn lemma_view_keeps_request(request: Request)
    ensures
        request matches Request::BestVoters(chains) ==> request@ == RequestView::BestVoters(
            chains@,
        ),
        request matches Request::Transactions(n) ==> request@ == RequestView::Transactions(n),
        request matches Request::UnvotedProposers { voter_parents, proposer } ==> {
            &&& request@ is UnvotedProposers
            &&& request@->voter_parents == voter_parents@
            &&& request@->proposer == proposer
        },
        request matches Request::Difficulty(h) ==> request@ == RequestView::Difficulty(h),
        request matches Request::MerkleRoot(MerkleUpdate::Rebuild) ==> request@
            == RequestView::MerkleRoot(MerkleView::Rebuild),
        request matches Request::MerkleRoot(MerkleUpdate::Entries(entries)) ==> request@
            == RequestView::MerkleRoot(MerkleView::Entries(entries@)),
        request matches Request::HeaderHash(header) ==> request@ == RequestView::HeaderHash(
            header,
        ),
        request matches Request::Sortition { header_hash, difficulty } ==> request@
            == (RequestView::Sortition { header_hash, difficulty }),
        request matches Request::Sleep(mean) ==> request@ == RequestView::Sleep(mean),
{
}

/// A block that was mined, and what is to be done with it.
#[derive(Debug)]
pub struct MinedBlock {
    pub block: Block,
    /// Hash of the header.
    pub header_hash: H256,
    /// Whether the block is stored and broadcast.
    pub publish: bool,
    /// What the miner tells itself about the block.
    pub update: ContextUpdateSignal,
}

impl ContentView {
    /// What changes for the miner with a block of this content.
    pub open spec fn update_signal(self) -> ContextUpdateSignal {
        match self {
            ContentView::Proposer(_) => ContextUpdateSignal::NewProposerBlock,
            ContentView::Transaction(_) => ContextUpdateSignal::NewTransactionBlock,
            ContentView::Voter(c) => ContextUpdateSignal::NewVoterBlock(c.chain_number),
        }
    }
}

} // verus!
