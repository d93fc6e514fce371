//! Transactions, and the hash by which they are known.

use crate::crypto::hash::{self, sha256_digest, H256};
use crate::crypto::sign;
use vstd::prelude::*;

pub mod encoding;

verus! {

/// The identifier of a coin: the output of a transaction that made it.
#[derive(Clone, Copy, Debug, PartialEq, Eq, Hash, Structural)]
pub struct CoinId {
    /// The hash of the transaction being referred to.
    pub hash: H256,
    /// The index of the output in question in that transaction.
    pub index: u32,
}

/// An input of a transaction.
#[derive(Clone, Copy, Debug, PartialEq, Eq, Hash, Structural)]
pub struct Input {
    /// The coin being spent.
    pub coin: CoinId,
    /// The amount of this input.
    pub value: u64,
    /// The hash of the public key of the owner (a.k.a. blockchain address).
    pub owner: H256,
}

/// An output of a transaction.
#[derive(Clone, Copy, Debug, PartialEq, Eq, Hash, Structural)]
pub struct Output {
    /// The amount of this output.
    pub value: u64,
    /// The hash of the public key of the recipient (a.k.a. blockchain address).
    pub recipient: H256,
}

/// The authorization of a transaction by one key.
#[derive(Debug, Hash)]
pub struct Signature {
    pub pubkey: sign::PubKey,
    pub signature: sign::Signature,
}

/// A Prism transaction. A transaction takes a set of existing coins and transforms them into a set
/// of output coins.
#[derive(Debug, Hash)]
pub struct Transaction {
    pub input: Vec<Input>,
    pub output: Vec<Output>,
    pub signatures: Vec<Signature>,
}

/// What a [`Signature`] holds.
#[verifier::ext_equal]
pub struct SignatureView {
    pub pubkey: Seq<u8>,
    pub signature: Seq<u8>,
}

/// What a [`Transaction`] holds.
#[verifier::ext_equal]
pub struct TransactionView {
    pub input: Seq<Input>,
    pub output: Seq<Output>,
    pub signatures: Seq<SignatureView>,
}

impl View for Signature {
    type V = SignatureView;

    open spec fn view(&self) -> SignatureView {
        SignatureView { pubkey: self.pubkey@, signature: self.signature@ }
    }
}

impl View for Transaction {
    type V = TransactionView;

    open spec fn view(&self) -> TransactionView {
        TransactionView {
            input: self.input@,
            output: self.output@,
            signatures: self.signatures@.map_values(|s: Signature| s@),
        }
    }
}

impl Clone for Signature {
    fn clone(&self) -> (copy: Self)
        ensures
            copy@ == self@,
    {
        Signature { pubkey: self.pubkey.clone(), signature: self.signature.clone() }
    }
}

impl Clone for Transaction {
    fn clone(&self) -> (copy: Self)
        ensures
            copy@ == self@,
            copy.input@ == self.input@,
            copy.output@ == self.output@,
            copy.signatures@.len() == self.signatures@.len(),
            forall|i: int|
                0 <= i < self.signatures@.len() ==> {
                    let (ours, theirs) = (self.signatures@[i], #[trigger] copy.signatures@[i]);
                    &&& theirs.pubkey.octets@ == ours.pubkey.octets@
                    &&& theirs.signature.octets@ == ours.signature.octets@
                },
    {
        let input = self.input.clone();
        let output = self.output.clone();
        let mut signatures: Vec<Signature> = Vec::new();
        let mut i: usize = 0;
        while i < self.signatures.len()
            invariant
                i <= self.signatures@.len(),
                signatures@.len() == i,
                forall|j: int| 0 <= j < i ==> #[trigger] signatures@[j]@ == self.signatures@[j]@,
            decreases self.signatures@.len() - i,
        {
            signatures.push(self.signatures[i].clone());
            i = i + 1;
        }
        let copy = Transaction { input, output, signatures };
        assert(copy@.input =~= self@.input);
        assert(copy@.output =~= self@.output);
        assert(copy@.signatures =~= self@.signatures);
        assert forall|i: int| 0 <= i < self.signatures@.len() implies {
            let (ours, theirs) = (self.signatures@[i], #[trigger] copy.signatures@[i]);
            &&& theirs.pubkey.octets@ == ours.pubkey.octets@
            &&& theirs.signature.octets@ == ours.signature.octets@
        } by {
            assert(copy.signatures@[i]@ == self.signatures@[i]@);
        }
        copy
    }
}

/// The view of a transaction keeps all that the transaction holds.
pub proof fn lemma_view_keeps_transaction(transaction: Transaction, k: int)
    ensures
        transaction@.input == transaction.input@,
        transaction@.output == transaction.output@,
        transaction@.signatures.len() == transaction.signatures@.len(),
        0 <= k < transaction.signatures@.len() ==> {
            let signature = transaction.signatures@[k];
            &&& transaction@.signatures[k].pubkey == signature.pubkey.octets@
            &&& transaction@.signatures[k].signature == signature.signature.octets@
        },
{
}

impl TransactionView {
    /// The hash of the transaction: the SHA-256 digest of its encoding.
    pub open spec fn hash(self) -> H256 {
        H256::of_bytes(hash::sha256(self.encoding()))
    }
}

impl Transaction {
    /// The hash by which the transaction is known.
    pub fn hash(&self) -> (hash: H256)
        requires
            self@.hashable(),
        ensures
            hash == self@.hash(),
            hash.bytes() == hash::sha256(self@.encoding()),
    {
        let serialized = self.encode();
        let digest = sha256_digest(serialized.as_slice());
        H256::from_slice(digest.as_slice())
    }
}

} // verus!
