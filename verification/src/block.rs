//! Blocks: a header, and one of three kinds of content.

use crate::crypto::hash::H256;
use crate::transaction::{Transaction, TransactionView};
use vstd::prelude::*;

verus! {

/// The header of a block.
#[derive(Clone, Copy, Debug)]
pub struct Header {
    /// Hash of the parent proposer block.
    pub parent: H256,
    /// Creation time of this block, in milliseconds of the UNIX epoch.
    pub timestamp: u128,
    /// Nonce.
    pub nonce: u32,
    /// Merkle root of all the contents that this block could have had.
    pub content_merkle_root: H256,
    /// Room for what the protocol does not use.
    pub extra_content: [u8; 32],
    /// Mining difficulty of this block.
    pub difficulty: H256,
}

/// The content of a proposer block.
#[derive(Debug)]
pub struct ProposerContent {
    /// Transaction blocks that the block refers to.
    pub transaction_refs: Vec<H256>,
    /// Proposer blocks that the block refers to.
    pub proposer_refs: Vec<H256>,
}

/// The content of a transaction block.
#[derive(Debug)]
pub struct TransactionContent {
    pub transactions: Vec<Transaction>,
}

/// The content of a voter block.
#[derive(Debug)]
pub struct VoterContent {
    /// The voter chain that the block belongs to.
    pub chain_number: u16,
    /// Hash of the parent voter block.
    pub voter_parent: H256,
    /// Proposer blocks that the block votes for.
    pub votes: Vec<H256>,
}

/// The content of a block.
#[derive(Debug)]
pub enum Content {
    Proposer(ProposerContent),
    Transaction(TransactionContent),
    Voter(VoterContent),
}

/// What a [`ProposerContent`] holds.
#[verifier::ext_equal]
pub struct ProposerView {
    pub transaction_refs: Seq<H256>,
    pub proposer_refs: Seq<H256>,
}

/// What a [`VoterContent`] holds.
#[verifier::ext_equal]
pub struct VoterView {
    pub chain_number: u16,
    pub voter_parent: H256,
    pub votes: Seq<H256>,
}

/// What a [`Content`] holds.
#[verifier::ext_equal]
pub enum ContentView {
    Proposer(ProposerView),
    Transaction(Seq<TransactionView>),
    Voter(VoterView),
}

impl View for ProposerContent {
    type V = ProposerView;

    open spec fn view(&self) -> ProposerView {
        ProposerView {
            transaction_refs: self.transaction_refs@,
            proposer_refs: self.proposer_refs@,
        }
    }
}

impl View for TransactionContent {
    type V = Seq<TransactionView>;

    open spec fn view(&self) -> Seq<TransactionView> {
        self.transactions@.map_values(|t: Transaction| t@)
    }
}

impl View for VoterContent {
    type V = VoterView;

    open spec fn view(&self) -> VoterView {
        VoterView {
            chain_number: self.chain_number,
            voter_parent: self.voter_parent,
            votes: self.votes@,
        }
    }
}

impl View for Content {
    type V = ContentView;

    open spec fn view(&self) -> ContentView {
        match self {
            Content::Proposer(c) => ContentView::Proposer(c@),
            Content::Transaction(c) => ContentView::Transaction(c@),
            Content::Voter(c) => ContentView::Voter(c@),
        }
    }
}

impl ContentView {
    /// Whether a block with this content would say nothing.
    pub open spec fn is_empty(self) -> bool {
        match self {
            ContentView::Proposer(c) => c.transaction_refs.len() == 0 && c.proposer_refs.len()
                == 0,
            ContentView::Transaction(transactions) => transactions.len() == 0,
            ContentView::Voter(c) => c.votes.len() == 0,
        }
    }
}

impl Content {
    /// Whether a block with this content would say nothing.
    pub fn is_empty(&self) -> (empty: bool)
        ensures
            empty == self@.is_empty(),
    {
        match self {
            Content::Transaction(content) => content.transactions.len() == 0,
            Content::Voter(content) => content.votes.len() == 0,
            Content::Proposer(content) => content.transaction_refs.len() == 0
                && content.proposer_refs.len() == 0,
        }
    }
}

impl Clone for Content {
    fn clone(&self) -> (copy: Self)
        ensures
            copy@ == self@,
    {
        match self {
            Content::Proposer(c) => {
                let transaction_refs = c.transaction_refs.clone();
                let proposer_refs = c.proposer_refs.clone();
                assert(transaction_refs@ =~= c.transaction_refs@);
                assert(proposer_refs@ =~= c.proposer_refs@);
                Content::Proposer(ProposerContent { transaction_refs, proposer_refs })
            },
            Content::Transaction(c) => {
                let mut transactions: Vec<Transaction> = Vec::new();
                let mut i: usize = 0;
                while i < c.transactions.len()
                    invariant
                        i <= c.transactions@.len(),
                        transactions@.len() == i,
                        forall|j: int|
                            0 <= j < i ==> #[trigger] transactions@[j]@ == c.transactions@[j]@,
                    decreases c.transactions@.len() - i,
                {
                    transactions.push(c.transactions[i].clone());
                    i = i + 1;
                }
                let copy = TransactionContent { transactions };
                assert(copy@ =~= c@);
                Content::Transaction(copy)
            },
            Content::Voter(c) => {
                let votes = c.votes.clone();
                assert(votes@ =~= c.votes@);
                Content::Voter(
                    VoterContent {
                        chain_number: c.chain_number,
                        voter_parent: c.voter_parent,
                        votes,
                    },
                )
            },
        }
    }
}

/// The view of a content keeps the kind and all that the content holds.
pub proof fn lemma_view_keeps_content(content: Content, k: int)
    ensures
        match content {
            Content::Proposer(c) => content@ matches ContentView::Proposer(v) && {
                &&& v.transaction_refs == c.transaction_refs@
                &&& v.proposer_refs == c.proposer_refs@
            },
            Content::Transaction(c) => content@ matches ContentView::Transaction(v) && {
                &&& v.len() == c.transactions@.len()
                &&& 0 <= k < v.len() ==> {
                    &&& v[k].input == c.transactions@[k].input@
                    &&& v[k].output == c.transactions@[k].output@
                    &&& v[k].signatures.len() == c.transactions@[k].signatures@.len()
                }
            },
            Content::Voter(c) => content@ matches ContentView::Voter(v) && {
                &&& v.chain_number == c.chain_number
                &&& v.voter_parent == c.voter_parent
                &&& v.votes == c.votes@
            },
        },
{
}

/// A content says nothing exactly when it is a transaction content without transactions, a voter
/// content without votes, or a proposer content without references of either kind.
pub proof fn lemma_empty_says_nothing(content: ContentView)
    ensures
        content.is_empty() <==> {
            ||| content matches ContentView::Transaction(t) && t.len() == 0
            ||| content matches ContentView::Voter(v) && v.votes.len() == 0
            ||| content matches ContentView::Proposer(p) && p.transaction_refs.len() == 0
                && p.proposer_refs.len() == 0
        },
{
}

/// A block.
#[derive(Debug)]
pub struct Block {
    pub header: Header,
    pub content: Content,
    /// The Merkle proof that the content is the one which the hash of the header selects.
    pub sortition_proof: Vec<H256>,
}

} // verus!
