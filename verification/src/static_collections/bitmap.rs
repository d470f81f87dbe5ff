//! A bitmap over a byte span fixed at construction: setting or clearing a bit
//! beyond the span is an explicit error, never a growth.

use vstd::prelude::*;
use crate::special_collections::bitmap::byte_bit;
use crate::static_collections::StaticCollectionError;

verus! {

/// A bitmap over fixed backing bytes. Bit `n` lives in byte `n / 8` at
/// position `n % 8`; `map_bits` is the backing byte span, which operations
/// never grow or shrink.
pub trait Bitmap: Sized {
    spec fn map_bits(&self) -> Seq<u8>;

    /// Sets every byte, and so every bit, to zero.
    fn clear_map(&mut self)
        ensures
            final(self).map_bits().len() == old(self).map_bits().len(),
            forall|i: int| 0 <= i < final(self).map_bits().len() ==> final(self).map_bits()[i] == 0,
    ;

    /// Sets every byte, and so every bit, to one.
    fn fill_map(&mut self)
        ensures
            final(self).map_bits().len() == old(self).map_bits().len(),
            forall|i: int|
                0 <= i < final(self).map_bits().len() ==> final(self).map_bits()[i] == 255,
    ;

    /// Sets bit `n`, reporting whether the bitmap changed; a bit beyond the
    /// span is an error with nothing changed.
    fn set_bit(&mut self, n: usize) -> (r: Result<bool, StaticCollectionError>)
        ensures
            n / 8 >= old(self).map_bits().len() ==> r == Err::<bool, StaticCollectionError>(
                StaticCollectionError::OutOfRange,
            ) && final(self).map_bits() == old(self).map_bits(),
            n / 8 < old(self).map_bits().len() ==> {
                let changed = !byte_bit(old(self).map_bits()[n as int / 8], (n % 8) as u64);
                &&& r == Ok::<bool, StaticCollectionError>(changed)
                &&& final(self).map_bits() == old(self).map_bits().update(
                    n as int / 8,
                    old(self).map_bits()[n as int / 8] | (1u8 << ((n % 8) as u64)),
                )
            },
    ;

    /// Clears bit `n`, reporting whether the bitmap changed; a bit beyond
    /// the span is an error with nothing changed.
    fn clear_bit(&mut self, n: usize) -> (r: Result<bool, StaticCollectionError>)
        ensures
            n / 8 >= old(self).map_bits().len() ==> r == Err::<bool, StaticCollectionError>(
                StaticCollectionError::OutOfRange,
            ) && final(self).map_bits() == old(self).map_bits(),
            n / 8 < old(self).map_bits().len() ==> {
                let changed = byte_bit(old(self).map_bits()[n as int / 8], (n % 8) as u64);
                &&& r == Ok::<bool, StaticCollectionError>(changed)
                &&& final(self).map_bits() == old(self).map_bits().update(
                    n as int / 8,
                    old(self).map_bits()[n as int / 8] & !(1u8 << ((n % 8) as u64)),
                )
            },
    ;
}

/// A `Bitmap` backed by a byte vector whose length is fixed at construction.
pub struct FixedBitmap {
    map: Vec<u8>,
}

impl FixedBitmap {
    /// A zeroed bitmap able to hold `bits` bits.
    pub fn new(bits: usize) -> (r: FixedBitmap)
        requires
            bits + 7 <= usize::MAX,
        ensures
            r.map_bits().len() == (bits + 7) / 8,
            forall|i: int| 0 <= i < r.map_bits().len() ==> r.map_bits()[i] == 0,
    {
        let len = (bits + 7) / 8;
        let mut map: Vec<u8> = Vec::new();
        let mut i: usize = 0;
        while i < len
            invariant
                i == map@.len(),
                i <= len,
                forall|k: int| 0 <= k < i ==> map@[k] == 0,
            decreases len - i,
        {
            map.push(0u8);
            i = i + 1;
        }
        FixedBitmap { map }
    }
}

impl Bitmap for FixedBitmap {
    closed spec fn map_bits(&self) -> Seq<u8> {
        self.map@
    }

    fn clear_map(&mut self) {
        let mut i: usize = 0;
        while i < self.map.len()
            invariant
                i <= self.map@.len(),
                self.map@.len() == old(self).map_bits().len(),
                forall|k: int| 0 <= k < i ==> self.map@[k] == 0,
            decreases self.map@.len() - i,
        {
            self.map[i] = 0u8;
            i = i + 1;
        }
    }

    fn fill_map(&mut self) {
        let mut i: usize = 0;
        while i < self.map.len()
            invariant
                i <= self.map@.len(),
                self.map@.len() == old(self).map_bits().len(),
                forall|k: int| 0 <= k < i ==> self.map@[k] == 255,
            decreases self.map@.len() - i,
        {
            self.map[i] = 255u8;
            i = i + 1;
        }
    }

    fn set_bit(&mut self, n: usize) -> (r: Result<bool, StaticCollectionError>) {
        let idx: usize = n / 8;
        let pos: u64 = (n % 8) as u64;
        let bitset: u8 = 1u8 << pos;
        if idx >= self.map.len() {
            return Err(StaticCollectionError::OutOfRange);
        }
        let elem = self.map[idx];
        proof {
            crate::special_collections::bitmap::lemma_test_bit(elem, pos);
        }
        self.map[idx] = elem | bitset;
        proof {
            assert(self.map@ =~= old(self).map_bits().update(idx as int, elem | bitset));
        }
        if elem & bitset == 0 {
            Ok(true)
        } else {
            Ok(false)
        }
    }

    fn clear_bit(&mut self, n: usize) -> (r: Result<bool, StaticCollectionError>) {
        let idx: usize = n / 8;
        let pos: u64 = (n % 8) as u64;
        let bitset: u8 = 1u8 << pos;
        if idx >= self.map.len() {
            return Err(StaticCollectionError::OutOfRange);
        }
        let elem = self.map[idx];
        proof {
            crate::special_collections::bitmap::lemma_test_bit(elem, pos);
        }
        self.map[idx] = elem & !bitset;
        proof {
            assert(self.map@ =~= old(self).map_bits().update(idx as int, elem & !bitset));
        }
        if elem & bitset != 0 {
            Ok(true)
        } else {
            Ok(false)
        }
    }
}

} // verus!
