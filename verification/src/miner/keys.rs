//! The keys of the memory pool's tables.

use crate::crypto::hash::H256;
use crate::table::TableKey;
use crate::transaction::{CoinId, Input};
use vstd::prelude::*;

verus! {

impl TableKey for H256 {
    type Parts = (u128, u128);

    open spec fn parts(self) -> (u128, u128) {
        (self.hi, self.lo)
    }

    open spec fn of_parts(parts: (u128, u128)) -> H256 {
        H256 { hi: parts.0, lo: parts.1 }
    }

    fn to_parts(&self) -> (parts: (u128, u128)) {
        (self.hi, self.lo)
    }

    proof fn parts_bijective() {
    }

    proof fn parts_ordered() {
        broadcast use vstd::laws_cmp::group_laws_cmp;

    }
}

impl TableKey for Input {
    type Parts = (u128, u128, u32, u64, u128, u128);

    open spec fn parts(self) -> (u128, u128, u32, u64, u128, u128) {
        (
            self.coin.hash.hi,
            self.coin.hash.lo,
            self.coin.index,
            self.value,
            self.owner.hi,
            self.owner.lo,
        )
    }

    open spec fn of_parts(parts: (u128, u128, u32, u64, u128, u128)) -> Input {
        Input {
            coin: CoinId { hash: H256 { hi: parts.0, lo: parts.1 }, index: parts.2 },
            value: parts.3,
            owner: H256 { hi: parts.4, lo: parts.5 },
        }
    }

    fn to_parts(&self) -> (parts: (u128, u128, u32, u64, u128, u128)) {
        (
            self.coin.hash.hi,
            self.coin.hash.lo,
            self.coin.index,
            self.value,
            self.owner.hi,
            self.owner.lo,
        )
    }

    proof fn parts_bijective() {
    }

    proof fn parts_ordered() {
        broadcast use vstd::laws_cmp::group_laws_cmp;

    }
}

} // verus!
