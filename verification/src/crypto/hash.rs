//! 256-bit hashes, and the byte strings they are read from and written to.

use vstd::arithmetic::{div_mod, power};
use vstd::prelude::*;

verus! {

/// `256` to the power of `n`: the number of byte strings of length `n`.
pub open spec fn byte_strings(n: nat) -> nat
    decreases n,
{
    if n == 0 {
        1
    } else {
        256 * byte_strings((n - 1) as nat)
    }
}

/// The number that `bytes` writes in base 256, most significant byte first.
pub open spec fn be_value(bytes: Seq<u8>) -> nat
    decreases bytes.len(),
{
    if bytes.len() == 0 {
        0
    } else {
        256 * be_value(bytes.drop_last()) + bytes.last() as nat
    }
}

/// The `width` low-order base-256 digits of `n`, most significant first.
pub open spec fn be_bytes(n: nat, width: nat) -> Seq<u8>
    decreases width,
{
    if width == 0 {
        Seq::empty()
    } else {
        be_bytes(n / 256, (width - 1) as nat).push((n % 256) as u8)
    }
}

/// The `width` low-order base-256 digits of `n`, least significant first.
pub open spec fn le_bytes(n: nat, width: nat) -> Seq<u8>
    decreases width,
{
    if width == 0 {
        Seq::empty()
    } else {
        seq![(n % 256) as u8] + le_bytes(n / 256, (width - 1) as nat)
    }
}

/// `width` bytes are written for every number.
pub proof fn lemma_be_bytes_len(n: nat, width: nat)
    ensures
        be_bytes(n, width).len() == width,
    decreases width,
{
    if width > 0 {
        lemma_be_bytes_len(n / 256, (width - 1) as nat);
    }
}

/// `width` bytes are written for every number.
pub proof fn lemma_le_bytes_len(n: nat, width: nat)
    ensures
        le_bytes(n, width).len() == width,
    decreases width,
{
    if width > 0 {
        lemma_le_bytes_len(n / 256, (width - 1) as nat);
    }
}

/// A byte string of length `n` writes a number below `256^n`.
pub proof fn lemma_be_value_bound(bytes: Seq<u8>)
    ensures
        be_value(bytes) < byte_strings(bytes.len()),
    decreases bytes.len(),
{
    if bytes.len() > 0 {
        lemma_be_value_bound(bytes.drop_last());
    }
}

/// Reading the bytes that were written for a number gives that number back.
pub proof fn lemma_be_write_read(n: nat, width: nat)
    requires
        n < byte_strings(width),
    ensures
        be_value(be_bytes(n, width)) == n,
    decreases width,
{
    if width > 0 {
        lemma_be_write_read(n / 256, (width - 1) as nat);
        lemma_be_bytes_len(n / 256, (width - 1) as nat);
        assert(be_bytes(n, width).drop_last() =~= be_bytes(n / 256, (width - 1) as nat));
    }
}

/// Writing the number that was read from a byte string gives that string back.
pub proof fn lemma_be_read_write(bytes: Seq<u8>)
    ensures
        be_bytes(be_value(bytes), bytes.len()) == bytes,
    decreases bytes.len(),
{
    if bytes.len() > 0 {
        lemma_be_read_write(bytes.drop_last());
        assert(bytes.drop_last().push(bytes.last()) =~= bytes);
    }
}

/// Two numbers that fit in `width` bytes are written alike only when they are equal.
pub proof fn lemma_le_bytes_injective(a: nat, b: nat, width: nat)
    requires
        a < byte_strings(width),
        b < byte_strings(width),
        le_bytes(a, width) == le_bytes(b, width),
    ensures
        a == b,
    decreases width,
{
    if width > 0 {
        let low = (width - 1) as nat;
        assert(le_bytes(a, width)[0] == (a % 256) as u8);
        assert(le_bytes(b, width)[0] == (b % 256) as u8);
        assert(le_bytes(a, width).drop_first() =~= le_bytes(a / 256, low));
        assert(le_bytes(b, width).drop_first() =~= le_bytes(b / 256, low));
        lemma_le_bytes_injective(a / 256, b / 256, low);
    }
}

/// Byte `i` of a number that is written most significant byte first in `width` bytes is the digit
/// with `width - 1 - i` digits below it.
pub proof fn lemma_be_digit(n: nat, width: nat, i: int)
    requires
        0 <= i < width,
    ensures
        be_bytes(n, width).len() == width,
        be_bytes(n, width)[i] == (n as int / power::pow(256, (width - 1 - i) as nat)) % 256,
    decreases width,
{
    lemma_be_bytes_len(n, width);
    lemma_be_bytes_len(n / 256, (width - 1) as nat);
    if i == width - 1 {
        power::lemma_pow0(256);
    } else {
        let below = (width - 2 - i) as nat;
        lemma_be_digit(n / 256, (width - 1) as nat, i);
        power::lemma_pow_positive(256, below);
        reveal(power::pow);
        assert(power::pow(256, below + 1) == 256 * power::pow(256, below));
        div_mod::lemma_div_denominator(n as int, 256, power::pow(256, below));
    }
}

/// Byte `i` of a number that is written least significant byte first is the digit with `i` digits
/// below it.
pub proof fn lemma_le_digit(n: nat, width: nat, i: int)
    requires
        0 <= i < width,
    ensures
        le_bytes(n, width).len() == width,
        le_bytes(n, width)[i] == (n as int / power::pow(256, i as nat)) % 256,
    decreases width,
{
    lemma_le_bytes_len(n, width);
    if i == 0 {
        power::lemma_pow0(256);
    } else {
        let below = (i - 1) as nat;
        lemma_le_digit(n / 256, (width - 1) as nat, i - 1);
        power::lemma_pow_positive(256, below);
        reveal(power::pow);
        assert(power::pow(256, i as nat) == 256 * power::pow(256, below));
        div_mod::lemma_div_denominator(n as int, 256, power::pow(256, below));
        assert(le_bytes(n, width)[i] == le_bytes(n / 256, (width - 1) as nat)[i - 1]);
    }
}

/// Of two byte strings of one length, the one that is lower where they first differ writes the
/// lower number.
pub proof fn lemma_be_value_lexicographic(a: Seq<u8>, b: Seq<u8>, k: int)
    requires
        a.len() == b.len(),
        0 <= k < a.len(),
        forall|i: int| 0 <= i < k ==> a[i] == b[i],
        a[k] < b[k],
    ensures
        be_value(a) < be_value(b),
    decreases a.len(),
{
    if k == a.len() - 1 {
        assert(a.drop_last() =~= b.drop_last());
    } else {
        lemma_be_value_lexicographic(a.drop_last(), b.drop_last(), k);
    }
}

/// The number of a string is made of those of its two parts.
pub proof fn lemma_be_value_add(a: Seq<u8>, b: Seq<u8>)
    ensures
        be_value(a + b) == byte_strings(b.len()) * be_value(a) + be_value(b),
    decreases b.len(),
{
    if b.len() == 0 {
        assert(a + b =~= a);
        assert(byte_strings(0) * be_value(a) == be_value(a)) by (nonlinear_arith)
            requires
                byte_strings(0) == 1,
        ;
    } else {
        lemma_be_value_add(a, b.drop_last());
        assert((a + b).drop_last() =~= a + b.drop_last());
        let (p, x, y) = (
            byte_strings((b.len() - 1) as nat),
            be_value(a),
            be_value(b.drop_last()),
        );
        assert((a + b).last() == b.last());
        assert(byte_strings(b.len()) == 256 * p);
        assert(256 * (p * x + y) == (256 * p) * x + 256 * y) by (nonlinear_arith);
    }
}

/// The number of 16-byte strings is the number of values of `u128`.
pub proof fn lemma_half_width()
    ensures
        byte_strings(16) == u128::MAX + 1,
{
    reveal_with_fuel(byte_strings, 17);
}

/// A 256-bit hash, held as its two big-endian halves.
#[derive(Clone, Copy, Debug, PartialEq, Eq, Hash, Structural)]
pub struct H256 {
    /// The first sixteen bytes.
    pub hi: u128,
    /// The last sixteen bytes.
    pub lo: u128,
}

impl H256 {
    /// The 32 bytes of the hash.
    pub open spec fn bytes(self) -> Seq<u8> {
        be_bytes(self.hi as nat, 16) + be_bytes(self.lo as nat, 16)
    }

    /// The hash as a number.
    pub open spec fn value(self) -> nat {
        (u128::MAX + 1) as nat * self.hi as nat + self.lo as nat
    }

    /// The hash whose bytes are `bytes`.
    pub open spec fn of_bytes(bytes: Seq<u8>) -> H256 {
        H256 {
            hi: be_value(bytes.take(16)) as u128,
            lo: be_value(bytes.skip(16)) as u128,
        }
    }

    /// Reading the bytes of a hash gives the hash back.
    pub proof fn lemma_bytes_round_trip(self)
        ensures
            H256::of_bytes(self.bytes()) == self,
    {
        lemma_be_bytes_len(self.hi as nat, 16);
        lemma_be_bytes_len(self.lo as nat, 16);
        assert(self.bytes().take(16) =~= be_bytes(self.hi as nat, 16));
        assert(self.bytes().skip(16) =~= be_bytes(self.lo as nat, 16));
        lemma_half_width();
        lemma_be_write_read(self.hi as nat, 16);
        lemma_be_write_read(self.lo as nat, 16);
    }

    /// Different hashes have different bytes.
    pub proof fn lemma_bytes_injective(self, other: H256)
        requires
            self.bytes() == other.bytes(),
        ensures
            self == other,
    {
        self.lemma_bytes_round_trip();
        other.lemma_bytes_round_trip();
    }

    /// Hashes are ordered as numbers by their first halves, and those with equal first halves by
    /// their second halves.
    pub proof fn lemma_value_order(self, other: H256)
        ensures
            self.value() < other.value() <==> self.hi < other.hi || self.hi == other.hi && self.lo
                < other.lo,
            self.value() == other.value() <==> self == other,
    {
        let radix = (u128::MAX + 1) as int;
        if self.hi < other.hi {
            assert(radix * self.hi + radix <= radix * other.hi) by (nonlinear_arith)
                requires
                    self.hi + 1 <= other.hi,
                    radix > 0,
            ;
        } else if other.hi < self.hi {
            assert(radix * other.hi + radix <= radix * self.hi) by (nonlinear_arith)
                requires
                    other.hi + 1 <= self.hi,
                    radix > 0,
            ;
        }
    }

    /// The bytes of a hash are those of its first half and then those of its second half, each
    /// most significant byte first.
    pub proof fn lemma_byte(self, i: int)
        requires
            0 <= i < 32,
        ensures
            self.bytes().len() == 32,
            i < 16 ==> self.bytes()[i] == (self.hi as int / power::pow(256, (15 - i) as nat)) % 256,
            i >= 16 ==> self.bytes()[i] == (self.lo as int / power::pow(256, (31 - i) as nat))
                % 256,
    {
        lemma_be_bytes_len(self.hi as nat, 16);
        lemma_be_bytes_len(self.lo as nat, 16);
        if i < 16 {
            lemma_be_digit(self.hi as nat, 16, i);
        } else {
            lemma_be_digit(self.lo as nat, 16, i - 16);
        }
    }

    /// The bytes of a hash write its number, most significant byte first.
    pub proof fn lemma_bytes_write_value(self)
        ensures
            be_value(self.bytes()) == self.value(),
    {
        lemma_be_bytes_len(self.lo as nat, 16);
        lemma_half_width();
        lemma_be_write_read(self.hi as nat, 16);
        lemma_be_write_read(self.lo as nat, 16);
        lemma_be_value_add(be_bytes(self.hi as nat, 16), be_bytes(self.lo as nat, 16));
    }

    /// Hashes are ordered as their byte strings are: the one that is lower where they first
    /// differ is the lower number.
    pub proof fn lemma_bytes_order(self, other: H256, k: int)
        requires
            0 <= k < 32,
            forall|i: int| 0 <= i < k ==> self.bytes()[i] == other.bytes()[i],
            self.bytes()[k] < other.bytes()[k],
        ensures
            self.value() < other.value(),
    {
        self.lemma_byte(k);
        other.lemma_byte(k);
        self.lemma_bytes_write_value();
        other.lemma_bytes_write_value();
        lemma_be_value_lexicographic(self.bytes(), other.bytes(), k);
    }

    /// The hash of all zero bytes.
    pub fn zero() -> (hash: H256)
        ensures
            hash.value() == 0,
            hash == (H256 { hi: 0, lo: 0 }),
    {
        H256 { hi: 0, lo: 0 }
    }

    /// Reads a hash from its 32 bytes.
    pub fn from_bytes(bytes: &[u8; 32]) -> (hash: H256)
        ensures
            hash == H256::of_bytes(bytes@),
            hash.bytes() == bytes@,
    {
        H256::from_slice(bytes.as_slice())
    }

    /// Reads a hash from a slice of 32 bytes.
    pub fn from_slice(bytes: &[u8]) -> (hash: H256)
        requires
            bytes@.len() == 32,
        ensures
            hash == H256::of_bytes(bytes@),
            hash.bytes() == bytes@,
    {
        let hi = read_half(bytes, 0);
        let lo = read_half(bytes, 16);
        proof {
            assert(bytes@.subrange(0, 16) =~= bytes@.take(16));
            assert(bytes@.subrange(16, 32) =~= bytes@.skip(16));
            lemma_be_read_write(bytes@.take(16));
            lemma_be_read_write(bytes@.skip(16));
            assert(bytes@.take(16) + bytes@.skip(16) =~= bytes@);
        }
        H256 { hi, lo }
    }

    /// The 32 bytes of the hash.
    pub fn to_bytes(&self) -> (bytes: [u8; 32])
        ensures
            bytes@ == self.bytes(),
    {
        let mut bytes: [u8; 32] = [0u8; 32];
        write_half(self.hi, &mut bytes, 0);
        let ghost first = bytes@;
        write_half(self.lo, &mut bytes, 16);
        proof {
            lemma_be_bytes_len(self.hi as nat, 16);
            lemma_be_bytes_len(self.lo as nat, 16);
            assert(bytes@.subrange(0, 16) =~= first.subrange(0, 16));
            assert(bytes@ =~= bytes@.subrange(0, 16) + bytes@.subrange(16, 32));
        }
        bytes
    }

    /// Whether the hash, read as a number, is below `bound`.
    pub fn is_below(&self, bound: &H256) -> (below: bool)
        ensures
            below == (self.value() < bound.value()),
    {
        proof {
            self.lemma_value_order(*bound);
        }
        self.hi < bound.hi || (self.hi == bound.hi && self.lo < bound.lo)
    }
}

/// The SHA-256 digest of `data`.
pub uninterp spec fn sha256(data: Seq<u8>) -> Seq<u8>;

/// Calls `ring::digest::digest` with the algorithm `SHA256` and copies the digest out.
///
/// Taken on trust: the digest is a function of the data alone, it is 32 bytes long, and one is
/// returned for all data whose length in bits fits in 64 bits.
#[verifier::external_body]
pub(crate) fn sha256_digest(data: &[u8]) -> (digest: Vec<u8>)
    requires
        data@.len() <= u64::MAX / 8,
    ensures
        digest@ == sha256(data@),
        digest@.len() == 32,
{
    ring::digest::digest(&ring::digest::SHA256, data).as_ref().to_vec()
}

/// Reads the sixteen bytes that start at `start`.
fn read_half(bytes: &[u8], start: usize) -> (half: u128)
    requires
        start <= 16,
        start + 16 <= bytes@.len(),
    ensures
        half == be_value(bytes@.subrange(start as int, start + 16)),
{
    let mut half: u128 = 0;
    let mut i: usize = 0;
    while i < 16
        invariant
            i <= 16,
            start <= 16,
            start + 16 <= bytes@.len(),
            half == be_value(bytes@.subrange(start as int, start + i)),
        decreases 16 - i,
    {
        proof {
            let seen = bytes@.subrange(start as int, start + i);
            let next = bytes@.subrange(start as int, start + i + 1);
            assert(next.drop_last() =~= seen);
            let whole = bytes@.subrange(start as int, start + 16);
            lemma_be_value_prefix(whole, (i + 1) as nat);
            assert(whole.take(i + 1) =~= next);
            lemma_be_value_bound(whole);
            lemma_half_width();
        }
        half = 256 * half + bytes[start + i] as u128;
        i = i + 1;
    }
    half
}

/// A prefix writes no larger a number than the whole string.
proof fn lemma_be_value_prefix(bytes: Seq<u8>, n: nat)
    requires
        n <= bytes.len(),
    ensures
        be_value(bytes.take(n as int)) <= be_value(bytes),
    decreases bytes.len() - n,
{
    if n < bytes.len() {
        lemma_be_value_prefix(bytes, n + 1);
        assert(bytes.take((n + 1) as int).drop_last() =~= bytes.take(n as int));
    } else {
        assert(bytes.take(n as int) =~= bytes);
    }
}

/// Writes `half` into the sixteen bytes that start at `start`.
fn write_half(half: u128, bytes: &mut [u8; 32], start: usize)
    requires
        start <= 16,
    ensures
        final(bytes)@.subrange(start as int, start + 16) == be_bytes(half as nat, 16),
        forall|i: int|
            0 <= i < 32 && !(start <= i < start + 16) ==> final(bytes)@[i] == old(bytes)@[i],
{
    let mut rest: u128 = half;
    let mut left: usize = 16;
    proof {
        lemma_be_bytes_len(half as nat, 16);
    }
    while left > 0
        invariant
            left <= 16,
            start <= 16,
            be_bytes(half as nat, 16) =~= be_bytes(rest as nat, left as nat)
                + bytes@.subrange(start + left, start + 16),
            forall|i: int|
                0 <= i < 32 && !(start <= i < start + 16) ==> bytes@[i] == old(bytes)@[i],
        decreases left,
    {
        let ghost before = bytes@;
        let digit: u8 = (rest % 256) as u8;
        left = left - 1;
        bytes[start + left] = digit;
        proof {
            assert(bytes@.subrange(start + left, start + 16) =~= seq![digit]
                + before.subrange(start + left + 1, start + 16));
            assert(be_bytes(rest as nat, (left + 1) as nat) =~= be_bytes(
                rest as nat / 256,
                left as nat,
            ) + seq![digit]);
        }
        rest = rest / 256;
    }
}

} // verus!
