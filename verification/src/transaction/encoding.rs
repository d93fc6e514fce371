//! The bytes that stand for a transaction when it is hashed.

use crate::crypto::hash::{self, H256};
use crate::transaction::{Input, Output, SignatureView, Transaction, TransactionView};
use vstd::prelude::*;

verus! {

/// A run of fields whose number is not fixed: how many there are, in eight bytes, and then each.
pub open spec fn counted(items: Seq<Seq<u8>>) -> Seq<u8> {
    hash::le_bytes(items.len(), 8) + items.flatten()
}

/// A byte string whose length is not fixed.
pub open spec fn counted_bytes(bytes: Seq<u8>) -> Seq<u8> {
    hash::le_bytes(bytes.len(), 8) + bytes
}

/// The four fields of an input, one after the other.
pub open spec fn input_encoding(hash: Seq<u8>, index: u32, value: u64, owner: Seq<u8>) -> Seq<u8> {
    hash + hash::le_bytes(index as nat, 4) + hash::le_bytes(
        value as nat,
        8,
    ) + owner
}

/// The two fields of an output, one after the other.
pub open spec fn output_encoding(value: u64, recipient: Seq<u8>) -> Seq<u8> {
    hash::le_bytes(value as nat, 8) + recipient
}

impl Input {
    /// The bytes that stand for the input in an encoded transaction.
    pub open spec fn encoding(self) -> Seq<u8> {
        input_encoding(self.coin.hash.bytes(), self.coin.index, self.value, self.owner.bytes())
    }
}

impl Output {
    /// The bytes that stand for the output in an encoded transaction.
    pub open spec fn encoding(self) -> Seq<u8> {
        output_encoding(self.value, self.recipient.bytes())
    }
}

impl SignatureView {
    /// The bytes that stand for the signature in an encoded transaction.
    pub open spec fn encoding(self) -> Seq<u8> {
        counted_bytes(self.pubkey) + counted_bytes(self.signature)
    }
}

impl TransactionView {
    /// The bytes that are hashed for a transaction: its inputs, its outputs and its signatures,
    /// numbers in little-endian order and at their full width.
    pub open spec fn encoding(self) -> Seq<u8> {
        counted(self.input.map_values(|i: Input| i.encoding())) + counted(
            self.output.map_values(|o: Output| o.encoding()),
        ) + counted(self.signatures.map_values(|s: SignatureView| s.encoding()))
    }

    /// Whether the encoding is short enough to be held in memory and hashed.
    pub open spec fn hashable(self) -> bool {
        &&& self.encoding().len() <= isize::MAX
        &&& self.encoding().len() <= u64::MAX / 8
    }
}

/// An input as the encoder takes it: the coin's hash and index, the value, the owner.
pub type PlainInput = (([u8; 32], u32), u64, [u8; 32]);

/// An output as the encoder takes it: the value, the recipient.
pub type PlainOutput = (u64, [u8; 32]);

/// A signature as the encoder takes it: the public key, the signature.
pub type PlainSignature = (Vec<u8>, Vec<u8>);

/// The encoding of a transaction given in the form that the encoder takes.
pub open spec fn plain_encoding(
    input: Seq<PlainInput>,
    output: Seq<PlainOutput>,
    signatures: Seq<PlainSignature>,
) -> Seq<u8> {
    counted(input.map_values(|i: PlainInput| input_encoding(i.0.0@, i.0.1, i.1, i.2@))) + counted(
        output.map_values(|o: PlainOutput| output_encoding(o.0, o.1@)),
    ) + counted(
        signatures.map_values(|s: PlainSignature| counted_bytes(s.0@) + counted_bytes(s.1@)),
    )
}

/// Calls `bincode::serialize` on the three lists, taken together as one tuple.
///
/// Taken on trust: with the settings of that function integers are written at their full width
/// in little-endian order, a tuple or an array is the concatenation of its fields, and a `Vec`
/// is its length, as a `u64`, followed by its elements. No error is returned for such values,
/// whatever their size; the result has to fit in one allocation.
#[verifier::external_body]
fn bincode_serialize(
    input: &Vec<PlainInput>,
    output: &Vec<PlainOutput>,
    signatures: &Vec<PlainSignature>,
) -> (bytes: Vec<u8>)
    requires
        plain_encoding(input@, output@, signatures@).len() <= isize::MAX,
    ensures
        bytes@ == plain_encoding(input@, output@, signatures@),
{
    bincode::serialize(&(input, output, signatures)).unwrap()
}

impl Transaction {
    /// The bytes that are hashed for the transaction.
    pub fn encode(&self) -> (bytes: Vec<u8>)
        requires
            self@.encoding().len() <= isize::MAX,
        ensures
            bytes@ == self@.encoding(),
    {
        let mut input: Vec<PlainInput> = Vec::new();
        let mut i: usize = 0;
        while i < self.input.len()
            invariant
                i <= self.input@.len(),
                input@.len() == i,
                forall|j: int|
                    0 <= j < i ==> {
                        let p = #[trigger] input@[j];
                        self.input@[j].encoding() == input_encoding(p.0.0@, p.0.1, p.1, p.2@)
                    },
            decreases self.input@.len() - i,
        {
            let x = self.input[i];
            input.push(((x.coin.hash.to_bytes(), x.coin.index), x.value, x.owner.to_bytes()));
            i = i + 1;
        }
        let mut output: Vec<PlainOutput> = Vec::new();
        i = 0;
        while i < self.output.len()
            invariant
                i <= self.output@.len(),
                output@.len() == i,
                forall|j: int|
                    0 <= j < i ==> {
                        let p = #[trigger] output@[j];
                        self.output@[j].encoding() == output_encoding(p.0, p.1@)
                    },
            decreases self.output@.len() - i,
        {
            let x = self.output[i];
            output.push((x.value, x.recipient.to_bytes()));
            i = i + 1;
        }
        let mut signatures: Vec<PlainSignature> = Vec::new();
        i = 0;
        while i < self.signatures.len()
            invariant
                i <= self.signatures@.len(),
                signatures@.len() == i,
                forall|j: int|
                    0 <= j < i ==> {
                        let p = #[trigger] signatures@[j];
                        self.signatures@[j]@.encoding() == counted_bytes(p.0@) + counted_bytes(
                            p.1@,
                        )
                    },
            decreases self.signatures@.len() - i,
        {
            let x = self.signatures[i].clone();
            signatures.push((x.pubkey.octets, x.signature.octets));
            i = i + 1;
        }
        proof {
            assert(input@.map_values(|i: PlainInput| input_encoding(i.0.0@, i.0.1, i.1, i.2@))
                =~= self@.input.map_values(|i: Input| i.encoding()));
            assert(output@.map_values(|o: PlainOutput| output_encoding(o.0, o.1@))
                =~= self@.output.map_values(|o: Output| o.encoding()));
            assert(signatures@.map_values(
                |s: PlainSignature| counted_bytes(s.0@) + counted_bytes(s.1@),
            ) =~= self@.signatures.map_values(|s: SignatureView| s.encoding()));
        }
        bincode_serialize(&input, &output, &signatures)
    }
}

impl Transaction {
    /// Whether the encoding is short enough to be held in memory and hashed.
    pub fn is_hashable(&self) -> (fits: bool)
        ensures
            fits == self@.hashable(),
    {
        proof {
            self@.lemma_encoding_len();
        }
        let mut total: u128 = 24 + 76 * (self.input.len() as u128) + 40 * (self.output.len()
            as u128);
        let ghost fixed = total as nat;
        let mut i: usize = 0;
        while i < self.signatures.len()
            invariant
                i <= self.signatures@.len(),
                total == fixed + signatures_len(self@.signatures.take(i as int)),
                fixed <= 24 + 116 * usize::MAX,
                self@.encoding().len() == fixed + signatures_len(self@.signatures),
                i > 0 ==> total <= u64::MAX,
            decreases self.signatures@.len() - i,
        {
            let ghost seen = self@.signatures.take(i as int);
            let ghost next = self@.signatures.take(i + 1);
            let s = &self.signatures[i];
            total = total + 16 + (s.pubkey.octets.len() as u128) + (s.signature.octets.len()
                as u128);
            i = i + 1;
            proof {
                assert(next.drop_last() =~= seen);
                assert(next.last() == s@);
                lemma_signatures_len_prefix(self@.signatures, i as nat);
            }
            if total > u64::MAX as u128 {
                return false;
            }
        }
        assert(self@.signatures.take(i as int) =~= self@.signatures);
        total <= isize::MAX as u128 && total <= (u64::MAX / 8) as u128
    }
}

/// The length of the encodings of `signatures`, one after the other.
pub open spec fn signatures_len(signatures: Seq<SignatureView>) -> nat
    decreases signatures.len(),
{
    if signatures.len() == 0 {
        0
    } else {
        signatures_len(signatures.drop_last()) + 16 + signatures.last().pubkey.len()
            + signatures.last().signature.len()
    }
}

proof fn lemma_signatures_len_prefix(signatures: Seq<SignatureView>, n: nat)
    requires
        n <= signatures.len(),
    ensures
        signatures_len(signatures.take(n as int)) <= signatures_len(signatures),
    decreases signatures.len() - n,
{
    if n < signatures.len() {
        lemma_signatures_len_prefix(signatures, n + 1);
        assert(signatures.take((n + 1) as int).drop_last() =~= signatures.take(n as int));
    } else {
        assert(signatures.take(n as int) =~= signatures);
    }
}

proof fn lemma_flatten_fixed(items: Seq<Seq<u8>>, width: nat)
    requires
        forall|i: int| 0 <= i < items.len() ==> (#[trigger] items[i]).len() == width,
    ensures
        items.flatten().len() == width * items.len(),
    decreases items.len(),
{
    if items.len() > 0 {
        lemma_flatten_fixed(items.drop_first(), width);
        assert(width * items.len() == width + width * (items.len() - 1)) by (nonlinear_arith)
            requires
                items.len() > 0,
        ;
    } else {
        assert(width * items.len() == 0) by (nonlinear_arith)
            requires
                items.len() == 0,
        ;
    }
}

proof fn lemma_flatten_signatures(signatures: Seq<SignatureView>)
    ensures
        signatures.map_values(|s: SignatureView| s.encoding()).flatten().len() == signatures_len(
            signatures,
        ),
    decreases signatures.len(),
{
    let f = |s: SignatureView| s.encoding();
    if signatures.len() > 0 {
        let front = signatures.drop_last();
        lemma_flatten_signatures(front);
        front.map_values(f).lemma_flatten_push(signatures.last().encoding());
        assert(signatures.map_values(f) =~= front.map_values(f).push(
            signatures.last().encoding(),
        ));
        hash::lemma_le_bytes_len(signatures.last().pubkey.len(), 8);
        hash::lemma_le_bytes_len(signatures.last().signature.len(), 8);
    }
}

proof fn lemma_input_len(input: Input)
    ensures
        input.encoding().len() == 76,
{
    hash::lemma_be_bytes_len(input.coin.hash.hi as nat, 16);
    hash::lemma_be_bytes_len(input.coin.hash.lo as nat, 16);
    hash::lemma_be_bytes_len(input.owner.hi as nat, 16);
    hash::lemma_be_bytes_len(input.owner.lo as nat, 16);
    hash::lemma_le_bytes_len(input.coin.index as nat, 4);
    hash::lemma_le_bytes_len(input.value as nat, 8);
}

proof fn lemma_output_len(output: Output)
    ensures
        output.encoding().len() == 40,
{
    hash::lemma_be_bytes_len(output.recipient.hi as nat, 16);
    hash::lemma_be_bytes_len(output.recipient.lo as nat, 16);
    hash::lemma_le_bytes_len(output.value as nat, 8);
}

impl TransactionView {
    /// An input takes 76 bytes, an output 40, a signature 16 and its two byte strings, and each
    /// of the three lists eight more for its length.
    pub proof fn lemma_encoding_len(self)
        ensures
            self.encoding().len() == 24 + 76 * self.input.len() + 40 * self.output.len()
                + signatures_len(self.signatures),
    {
        let inputs = self.input.map_values(|i: Input| i.encoding());
        let outputs = self.output.map_values(|o: Output| o.encoding());
        assert forall|i: int| 0 <= i < inputs.len() implies (#[trigger] inputs[i]).len() == 76 by {
            lemma_input_len(self.input[i]);
        }
        assert forall|i: int| 0 <= i < outputs.len() implies (#[trigger] outputs[i]).len()
            == 40 by {
            lemma_output_len(self.output[i]);
        }
        lemma_flatten_fixed(inputs, 76);
        lemma_flatten_fixed(outputs, 40);
        lemma_flatten_signatures(self.signatures);
        hash::lemma_le_bytes_len(inputs.len(), 8);
        hash::lemma_le_bytes_len(outputs.len(), 8);
        hash::lemma_le_bytes_len(self.signatures.len(), 8);
    }
}

proof fn lemma_split(a: Seq<u8>, b: Seq<u8>, x: Seq<u8>, y: Seq<u8>)
    requires
        a.len() == b.len(),
        a + x == b + y,
    ensures
        a == b,
        x == y,
{
    assert(a =~= (a + x).take(a.len() as int));
    assert(b =~= (b + y).take(b.len() as int));
    assert(x =~= (a + x).skip(a.len() as int));
    assert(y =~= (b + y).skip(b.len() as int));
}

proof fn lemma_h256_bytes_len(h: H256)
    ensures
        h.bytes().len() == 32,
{
    hash::lemma_be_bytes_len(h.hi as nat, 16);
    hash::lemma_be_bytes_len(h.lo as nat, 16);
}

proof fn lemma_input_delimited(a: Input, b: Input, x: Seq<u8>, y: Seq<u8>)
    requires
        a.encoding() + x == b.encoding() + y,
    ensures
        a == b,
        x == y,
{
    lemma_input_len(a);
    lemma_input_len(b);
    lemma_split(a.encoding(), b.encoding(), x, y);
    let (ah, bh) = (a.coin.hash.bytes(), b.coin.hash.bytes());
    let (ai, bi) = (
        hash::le_bytes(a.coin.index as nat, 4),
        hash::le_bytes(b.coin.index as nat, 4),
    );
    let (av, bv) = (
        hash::le_bytes(a.value as nat, 8),
        hash::le_bytes(b.value as nat, 8),
    );
    lemma_h256_bytes_len(a.coin.hash);
    lemma_h256_bytes_len(b.coin.hash);
    hash::lemma_le_bytes_len(a.coin.index as nat, 4);
    hash::lemma_le_bytes_len(b.coin.index as nat, 4);
    hash::lemma_le_bytes_len(a.value as nat, 8);
    hash::lemma_le_bytes_len(b.value as nat, 8);
    lemma_split(ah + ai + av, bh + bi + bv, a.owner.bytes(), b.owner.bytes());
    lemma_split(ah + ai, bh + bi, av, bv);
    lemma_split(ah, bh, ai, bi);
    reveal_with_fuel(hash::byte_strings, 9);
    hash::lemma_le_bytes_injective(a.coin.index as nat, b.coin.index as nat, 4);
    hash::lemma_le_bytes_injective(a.value as nat, b.value as nat, 8);
    a.coin.hash.lemma_bytes_injective(b.coin.hash);
    a.owner.lemma_bytes_injective(b.owner);
}

proof fn lemma_output_delimited(a: Output, b: Output, x: Seq<u8>, y: Seq<u8>)
    requires
        a.encoding() + x == b.encoding() + y,
    ensures
        a == b,
        x == y,
{
    lemma_output_len(a);
    lemma_output_len(b);
    lemma_split(a.encoding(), b.encoding(), x, y);
    hash::lemma_le_bytes_len(a.value as nat, 8);
    hash::lemma_le_bytes_len(b.value as nat, 8);
    lemma_split(
        hash::le_bytes(a.value as nat, 8),
        hash::le_bytes(b.value as nat, 8),
        a.recipient.bytes(),
        b.recipient.bytes(),
    );
    reveal_with_fuel(hash::byte_strings, 9);
    hash::lemma_le_bytes_injective(a.value as nat, b.value as nat, 8);
    a.recipient.lemma_bytes_injective(b.recipient);
}

proof fn lemma_counted_bytes_delimited(a: Seq<u8>, b: Seq<u8>, x: Seq<u8>, y: Seq<u8>)
    requires
        a.len() <= u64::MAX,
        b.len() <= u64::MAX,
        counted_bytes(a) + x == counted_bytes(b) + y,
    ensures
        a == b,
        x == y,
{
    let (an, bn) = (
        hash::le_bytes(a.len(), 8),
        hash::le_bytes(b.len(), 8),
    );
    hash::lemma_le_bytes_len(a.len(), 8);
    hash::lemma_le_bytes_len(b.len(), 8);
    assert(counted_bytes(a) + x =~= an + (a + x));
    assert(counted_bytes(b) + y =~= bn + (b + y));
    lemma_split(an, bn, a + x, b + y);
    reveal_with_fuel(hash::byte_strings, 9);
    hash::lemma_le_bytes_injective(a.len(), b.len(), 8);
    lemma_split(a, b, x, y);
}

proof fn lemma_signature_delimited(
    a: SignatureView,
    b: SignatureView,
    x: Seq<u8>,
    y: Seq<u8>,
)
    requires
        a.fits(),
        b.fits(),
        a.encoding() + x == b.encoding() + y,
    ensures
        a == b,
        x == y,
{
    assert(a.encoding() + x =~= counted_bytes(a.pubkey) + (counted_bytes(a.signature) + x));
    assert(b.encoding() + y =~= counted_bytes(b.pubkey) + (counted_bytes(b.signature) + y));
    lemma_counted_bytes_delimited(
        a.pubkey,
        b.pubkey,
        counted_bytes(a.signature) + x,
        counted_bytes(b.signature) + y,
    );
    lemma_counted_bytes_delimited(a.signature, b.signature, x, y);
}

/// Lists of equal length whose elements can be told apart can be told apart.
proof fn lemma_flatten_delimited<A>(
    s: Seq<A>,
    t: Seq<A>,
    f: spec_fn(A) -> Seq<u8>,
    x: Seq<u8>,
    y: Seq<u8>,
)
    requires
        s.len() == t.len(),
        forall|a: A, b: A, p: Seq<u8>, q: Seq<u8>|
            #![trigger f(a) + p, f(b) + q]
            s.contains(a) && t.contains(b) && f(a) + p == f(b) + q ==> a == b && p == q,
        s.map_values(f).flatten() + x == t.map_values(f).flatten() + y,
    ensures
        s == t,
        x == y,
    decreases s.len(),
{
    if s.len() == 0 {
        assert(s =~= t);
        assert(s.map_values(f).flatten() + x =~= x);
        assert(t.map_values(f).flatten() + y =~= y);
    } else {
        let (s1, t1) = (s.drop_first(), t.drop_first());
        assert(s.map_values(f).drop_first() =~= s1.map_values(f));
        assert(t.map_values(f).drop_first() =~= t1.map_values(f));
        let p = s1.map_values(f).flatten() + x;
        let q = t1.map_values(f).flatten() + y;
        assert(s.map_values(f).flatten() + x =~= f(s[0]) + p);
        assert(t.map_values(f).flatten() + y =~= f(t[0]) + q);
        assert(s.contains(s[0]) && t.contains(t[0]));
        assert(s[0] == t[0] && p == q);
        assert forall|a: A, b: A, p: Seq<u8>, q: Seq<u8>|
            #![trigger f(a) + p, f(b) + q]
            s1.contains(a) && t1.contains(b) && f(a) + p == f(b) + q implies a == b && p == q by {
            let i = choose|i: int| 0 <= i < s1.len() && s1[i] == a;
            let j = choose|j: int| 0 <= j < t1.len() && t1[j] == b;
            assert(s[i + 1] == a && t[j + 1] == b);
        }
        lemma_flatten_delimited(s1, t1, f, x, y);
        assert(s =~= seq![s[0]] + s1);
        assert(t =~= seq![t[0]] + t1);
    }
}

proof fn lemma_counted_delimited<A>(
    s: Seq<A>,
    t: Seq<A>,
    f: spec_fn(A) -> Seq<u8>,
    x: Seq<u8>,
    y: Seq<u8>,
)
    requires
        s.len() <= u64::MAX,
        t.len() <= u64::MAX,
        forall|a: A, b: A, p: Seq<u8>, q: Seq<u8>|
            #![trigger f(a) + p, f(b) + q]
            s.contains(a) && t.contains(b) && f(a) + p == f(b) + q ==> a == b && p == q,
        counted(s.map_values(f)) + x == counted(t.map_values(f)) + y,
    ensures
        s == t,
        x == y,
{
    let (sn, tn) = (
        hash::le_bytes(s.len(), 8),
        hash::le_bytes(t.len(), 8),
    );
    let (sb, tb) = (s.map_values(f).flatten(), t.map_values(f).flatten());
    hash::lemma_le_bytes_len(s.len(), 8);
    hash::lemma_le_bytes_len(t.len(), 8);
    assert(counted(s.map_values(f)) + x =~= sn + (sb + x));
    assert(counted(t.map_values(f)) + y =~= tn + (tb + y));
    lemma_split(sn, tn, sb + x, tb + y);
    reveal_with_fuel(hash::byte_strings, 9);
    hash::lemma_le_bytes_injective(s.len(), t.len(), 8);
    lemma_flatten_delimited(s, t, f, x, y);
}

impl SignatureView {
    /// Whether the byte strings are no longer than a `Vec` can be.
    pub open spec fn fits(self) -> bool {
        &&& self.pubkey.len() <= usize::MAX
        &&& self.signature.len() <= usize::MAX
    }
}

impl TransactionView {
    /// Whether the lists are no longer than a `Vec` can be.
    pub open spec fn fits(self) -> bool {
        &&& self.input.len() <= usize::MAX
        &&& self.output.len() <= usize::MAX
        &&& self.signatures.len() <= usize::MAX
        &&& forall|i: int|
            0 <= i < self.signatures.len() ==> (#[trigger] self.signatures[i]).fits()
    }

    /// Different transactions are encoded differently: the bytes that are hashed say which
    /// transaction they stand for.
    pub proof fn lemma_encoding_injective(self, other: TransactionView)
        requires
            self.fits(),
            other.fits(),
            self.encoding() == other.encoding(),
        ensures
            self == other,
    {
        let fi = |i: Input| i.encoding();
        let fo = |o: Output| o.encoding();
        let fs = |s: SignatureView| s.encoding();
        let (ai, bi) = (counted(self.input.map_values(fi)), counted(other.input.map_values(fi)));
        let (ao, bo) = (counted(self.output.map_values(fo)), counted(other.output.map_values(fo)));
        let (as_, bs) = (
            counted(self.signatures.map_values(fs)),
            counted(other.signatures.map_values(fs)),
        );
        assert forall|a: Input, b: Input, p: Seq<u8>, q: Seq<u8>|
            #![trigger fi(a) + p, fi(b) + q]
            fi(a) + p == fi(b) + q implies a == b && p == q by {
            lemma_input_delimited(a, b, p, q);
        }
        assert forall|a: Output, b: Output, p: Seq<u8>, q: Seq<u8>|
            #![trigger fo(a) + p, fo(b) + q]
            fo(a) + p == fo(b) + q implies a == b && p == q by {
            lemma_output_delimited(a, b, p, q);
        }
        assert forall|a: SignatureView, b: SignatureView, p: Seq<u8>, q: Seq<u8>|
            #![trigger fs(a) + p, fs(b) + q]
            self.signatures.contains(a) && other.signatures.contains(b) && fs(a) + p == fs(b)
                + q implies a == b && p == q by {
            lemma_signature_delimited(a, b, p, q);
        }
        assert(self.encoding() =~= ai + (ao + as_));
        assert(other.encoding() =~= bi + (bo + bs));
        lemma_counted_delimited(self.input, other.input, fi, ao + as_, bo + bs);
        lemma_counted_delimited(self.output, other.output, fo, as_, bs);
        assert(as_ + Seq::<u8>::empty() =~= as_);
        assert(bs + Seq::<u8>::empty() =~= bs);
        lemma_counted_delimited(
            self.signatures,
            other.signatures,
            fs,
            Seq::empty(),
            Seq::empty(),
        );
    }
}

proof fn lemma_flatten_fixed_at(items: Seq<Seq<u8>>, width: nat, i: int)
    requires
        forall|k: int| 0 <= k < items.len() ==> (#[trigger] items[k]).len() == width,
        0 <= i < items.len(),
    ensures
        0 <= width * i,
        width * i + width <= items.flatten().len(),
        items.flatten().subrange(width * i, width * i + width) == items[i],
    decreases items.len(),
{
    let rest = items.drop_first();
    lemma_flatten_fixed(items, width);
    lemma_flatten_fixed(rest, width);
    assert(width * i + width <= width * items.len() && 0 <= width * i) by (nonlinear_arith)
        requires
            0 <= i,
            i + 1 <= items.len(),
    ;
    assert(items.flatten() == items[0] + rest.flatten());
    if i == 0 {
        assert(width * i == 0) by (nonlinear_arith)
            requires
                i == 0,
        ;
        assert(items.flatten().subrange(0, width as int) =~= items[0]);
    } else {
        lemma_flatten_fixed_at(rest, width, i - 1);
        assert(width * i == width + width * (i - 1)) by (nonlinear_arith);
        assert(items.flatten().subrange(width * i, width * i + width) =~= rest.flatten().subrange(
            width * (i - 1),
            width * (i - 1) + width,
        ));
    }
}

proof fn lemma_flatten_signatures_at(signatures: Seq<SignatureView>, k: int)
    requires
        0 <= k < signatures.len(),
    ensures
        ({
            let bytes = signatures.map_values(|s: SignatureView| s.encoding()).flatten();
            let start = signatures_len(signatures.take(k)) as int;
            let end = start + signatures[k].encoding().len();
            &&& end <= bytes.len()
            &&& bytes.subrange(start, end) == signatures[k].encoding()
        }),
    decreases signatures.len(),
{
    let f = |s: SignatureView| s.encoding();
    let front = signatures.drop_last();
    let last = signatures.last().encoding();
    let bytes = signatures.map_values(f).flatten();
    lemma_flatten_signatures(front);
    front.map_values(f).lemma_flatten_push(last);
    assert(signatures.map_values(f) =~= front.map_values(f).push(last));
    assert(bytes =~= front.map_values(f).flatten() + last);
    let start = signatures_len(signatures.take(k)) as int;
    if k == signatures.len() - 1 {
        assert(signatures.take(k) =~= front);
        assert(bytes.subrange(start, start + last.len()) =~= last);
    } else {
        lemma_flatten_signatures_at(front, k);
        assert(front.take(k) =~= signatures.take(k));
        let end = start + signatures[k].encoding().len();
        assert(bytes.subrange(start, end) =~= front.map_values(f).flatten().subrange(start, end));
    }
}

impl TransactionView {
    /// Where the three lists start, and that each starts with its length.
    pub proof fn lemma_encoding_counts(self)
        ensures
            ({
                let bytes = self.encoding();
                let outputs = 8 + 76 * self.input.len() as int;
                let signatures = outputs + 8 + 40 * self.output.len();
                &&& signatures + 8 <= bytes.len()
                &&& bytes.subrange(0, 8) == hash::le_bytes(self.input.len(), 8)
                &&& bytes.subrange(outputs, outputs + 8) == hash::le_bytes(
                    self.output.len(),
                    8,
                )
                &&& bytes.subrange(signatures, signatures + 8) == hash::le_bytes(
                    self.signatures.len(),
                    8,
                )
            }),
    {
        self.lemma_encoding_parts();
        let bytes = self.encoding();
        let (inputs, outputs, signatures) = self.flat_parts();
        hash::lemma_le_bytes_len(self.input.len(), 8);
        hash::lemma_le_bytes_len(self.output.len(), 8);
        hash::lemma_le_bytes_len(self.signatures.len(), 8);
        let a = 8 + 76 * self.input.len() as int;
        let b = a + 8 + 40 * self.output.len();
        assert(bytes.subrange(0, 8) =~= hash::le_bytes(self.input.len(), 8));
        assert(bytes.subrange(a, a + 8) =~= hash::le_bytes(self.output.len(), 8));
        assert(bytes.subrange(b, b + 8) =~= hash::le_bytes(self.signatures.len(), 8));
    }

    /// Input `i` stands in 76 bytes: the hash of the coin, its index in four bytes, the value in
    /// eight, and the owner.
    pub proof fn lemma_encoding_input(self, i: int)
        requires
            0 <= i < self.input.len(),
        ensures
            ({
                let bytes = self.encoding();
                let at = 8 + 76 * i;
                let input = self.input[i];
                &&& at + 76 <= bytes.len()
                &&& bytes.subrange(at, at + 32) == input.coin.hash.bytes()
                &&& bytes.subrange(at + 32, at + 36) == hash::le_bytes(input.coin.index as nat, 4)
                &&& bytes.subrange(at + 36, at + 44) == hash::le_bytes(input.value as nat, 8)
                &&& bytes.subrange(at + 44, at + 76) == input.owner.bytes()
            }),
    {
        self.lemma_encoding_parts();
        let bytes = self.encoding();
        let (inputs, outputs, signatures) = self.flat_parts();
        let items = self.input.map_values(|x: Input| x.encoding());
        assert forall|k: int| 0 <= k < items.len() implies (#[trigger] items[k]).len() == 76 by {
            lemma_input_len(self.input[k]);
        }
        hash::lemma_le_bytes_len(self.input.len(), 8);
        lemma_flatten_fixed_at(items, 76, i);
        let at = 8 + 76 * i;
        let input = self.input[i];
        let whole = input.encoding();
        assert(bytes.subrange(at, at + 76) =~= inputs.subrange(76 * i, 76 * i + 76));
        assert(bytes.subrange(at, at + 76) == whole);
        lemma_h256_bytes_len(input.coin.hash);
        lemma_h256_bytes_len(input.owner);
        hash::lemma_le_bytes_len(input.coin.index as nat, 4);
        hash::lemma_le_bytes_len(input.value as nat, 8);
        assert(bytes.subrange(at, at + 32) =~= whole.subrange(0, 32));
        assert(bytes.subrange(at + 32, at + 36) =~= whole.subrange(32, 36));
        assert(bytes.subrange(at + 36, at + 44) =~= whole.subrange(36, 44));
        assert(bytes.subrange(at + 44, at + 76) =~= whole.subrange(44, 76));
        assert(whole.subrange(0, 32) =~= input.coin.hash.bytes());
        assert(whole.subrange(32, 36) =~= hash::le_bytes(input.coin.index as nat, 4));
        assert(whole.subrange(36, 44) =~= hash::le_bytes(input.value as nat, 8));
        assert(whole.subrange(44, 76) =~= input.owner.bytes());
    }

    /// Output `i` stands in 40 bytes: the value in eight, and the recipient.
    pub proof fn lemma_encoding_output(self, i: int)
        requires
            0 <= i < self.output.len(),
        ensures
            ({
                let bytes = self.encoding();
                let at = 16 + 76 * self.input.len() + 40 * i;
                let output = self.output[i];
                &&& at + 40 <= bytes.len()
                &&& bytes.subrange(at, at + 8) == hash::le_bytes(output.value as nat, 8)
                &&& bytes.subrange(at + 8, at + 40) == output.recipient.bytes()
            }),
    {
        self.lemma_encoding_parts();
        let bytes = self.encoding();
        let (inputs, outputs, signatures) = self.flat_parts();
        let items = self.output.map_values(|x: Output| x.encoding());
        assert forall|k: int| 0 <= k < items.len() implies (#[trigger] items[k]).len() == 40 by {
            lemma_output_len(self.output[k]);
        }
        hash::lemma_le_bytes_len(self.input.len(), 8);
        hash::lemma_le_bytes_len(self.output.len(), 8);
        lemma_flatten_fixed_at(items, 40, i);
        let at = 16 + 76 * self.input.len() + 40 * i;
        let output = self.output[i];
        let whole = output.encoding();
        assert(bytes.subrange(at, at + 40) =~= outputs.subrange(40 * i, 40 * i + 40));
        assert(bytes.subrange(at, at + 40) == whole);
        lemma_h256_bytes_len(output.recipient);
        hash::lemma_le_bytes_len(output.value as nat, 8);
        assert(bytes.subrange(at, at + 8) =~= whole.subrange(0, 8));
        assert(bytes.subrange(at + 8, at + 40) =~= whole.subrange(8, 40));
        assert(whole.subrange(0, 8) =~= hash::le_bytes(output.value as nat, 8));
        assert(whole.subrange(8, 40) =~= output.recipient.bytes());
    }

    /// Signature `k` stands after those before it: the length of the public key in eight bytes,
    /// the public key, the length of the signature in eight bytes, and the signature.
    pub proof fn lemma_encoding_signature(self, k: int)
        requires
            0 <= k < self.signatures.len(),
        ensures
            ({
                let bytes = self.encoding();
                let at = 24 + 76 * self.input.len() as int + 40 * self.output.len()
                    + signatures_len(self.signatures.take(k));
                let key = self.signatures[k].pubkey;
                let signature = self.signatures[k].signature;
                let then = at + 8 + key.len();
                &&& then + 8 + signature.len() <= bytes.len()
                &&& bytes.subrange(at, at + 8) == hash::le_bytes(key.len(), 8)
                &&& bytes.subrange(at + 8, then) == key
                &&& bytes.subrange(then, then + 8) == hash::le_bytes(signature.len(), 8)
                &&& bytes.subrange(then + 8, then + 8 + signature.len()) == signature
            }),
    {
        self.lemma_encoding_parts();
        let bytes = self.encoding();
        let (inputs, outputs, signatures) = self.flat_parts();
        let key = self.signatures[k].pubkey;
        let signature = self.signatures[k].signature;
        let whole = self.signatures[k].encoding();
        lemma_flatten_signatures_at(self.signatures, k);
        hash::lemma_le_bytes_len(self.input.len(), 8);
        hash::lemma_le_bytes_len(self.output.len(), 8);
        hash::lemma_le_bytes_len(self.signatures.len(), 8);
        hash::lemma_le_bytes_len(key.len(), 8);
        hash::lemma_le_bytes_len(signature.len(), 8);
        let start = signatures_len(self.signatures.take(k)) as int;
        let at = 24 + 76 * self.input.len() + 40 * self.output.len() + start;
        let end = at + whole.len();
        assert(bytes.subrange(at, end) =~= signatures.subrange(start, start + whole.len()));
        assert(bytes.subrange(at, end) == whole);
        let mid = 8 + key.len() as int;
        assert(bytes.subrange(at, at + 8) =~= whole.subrange(0, 8));
        assert(bytes.subrange(at + 8, at + mid) =~= whole.subrange(8, mid));
        assert(bytes.subrange(at + mid, at + mid + 8) =~= whole.subrange(mid, mid + 8));
        assert(bytes.subrange(at + mid + 8, end) =~= whole.subrange(mid + 8, whole.len() as int));
        assert(whole.subrange(0, 8) =~= hash::le_bytes(key.len(), 8));
        assert(whole.subrange(8, mid) =~= key);
        assert(whole.subrange(mid, mid + 8) =~= hash::le_bytes(signature.len(), 8));
        assert(whole.subrange(mid + 8, whole.len() as int) =~= signature);
    }

    /// A transaction can be hashed exactly when its encoding fits in an allocation, and its length
    /// in bits in 64 bits.
    pub proof fn lemma_hashable(self)
        ensures
            self.hashable() <==> {
                let len = 24 + 76 * self.input.len() + 40 * self.output.len() + signatures_len(
                    self.signatures,
                );
                len <= isize::MAX && 8 * len <= u64::MAX
            },
    {
        self.lemma_encoding_len();
    }

    spec fn flat_parts(self) -> (Seq<u8>, Seq<u8>, Seq<u8>) {
        (
            self.input.map_values(|x: Input| x.encoding()).flatten(),
            self.output.map_values(|x: Output| x.encoding()).flatten(),
            self.signatures.map_values(|x: SignatureView| x.encoding()).flatten(),
        )
    }

    proof fn lemma_encoding_parts(self)
        ensures
            ({
                let (inputs, outputs, signatures) = self.flat_parts();
                &&& inputs.len() == 76 * self.input.len()
                &&& outputs.len() == 40 * self.output.len()
                &&& self.encoding() == hash::le_bytes(self.input.len(), 8) + inputs
                    + hash::le_bytes(self.output.len(), 8) + outputs + hash::le_bytes(
                    self.signatures.len(),
                    8,
                ) + signatures
            }),
    {
        let inputs = self.input.map_values(|x: Input| x.encoding());
        let outputs = self.output.map_values(|x: Output| x.encoding());
        assert forall|i: int| 0 <= i < inputs.len() implies (#[trigger] inputs[i]).len() == 76 by {
            lemma_input_len(self.input[i]);
        }
        assert forall|i: int| 0 <= i < outputs.len() implies (#[trigger] outputs[i]).len()
            == 40 by {
            lemma_output_len(self.output[i]);
        }
        lemma_flatten_fixed(inputs, 76);
        lemma_flatten_fixed(outputs, 40);
        let (a, b, c) = self.flat_parts();
        assert(self.encoding() =~= hash::le_bytes(self.input.len(), 8) + a + hash::le_bytes(
            self.output.len(),
            8,
        ) + b + hash::le_bytes(self.signatures.len(), 8) + c);
    }
}

/// Each signature adds the two lengths, in eight bytes each, and the two byte strings.
pub proof fn lemma_signatures_len_push(signatures: Seq<SignatureView>, s: SignatureView)
    ensures
        signatures_len(Seq::empty()) == 0,
        signatures_len(signatures.push(s)) == signatures_len(signatures) + 16 + s.pubkey.len()
            + s.signature.len(),
{
    assert(signatures.push(s).drop_last() =~= signatures);
}

} // verus!
