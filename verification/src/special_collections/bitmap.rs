//! A bitmap over a growable byte vector; bit `n` lives in byte `n / 8` at
//! position `n % 8`, and the vector extends on demand when a bit is set.

use vstd::prelude::*;

verus! {

/// Whether bit `k` of byte `b` is one.
pub open spec fn byte_bit(b: u8, k: u64) -> bool {
    (b >> k) & 1u8 == 1u8
}

pub struct DynamicBitmap {
    data: Vec<u8>,
}

proof fn lemma_or_bit(b: u8, i: u64, j: u64)
    by (bit_vector)
    requires
        i < 8,
        j < 8,
    ensures
        ((b | (1u8 << i)) >> j) & 1u8 == if i == j { 1u8 } else { (b >> j) & 1u8 },
{
}

proof fn lemma_and_not_bit(b: u8, i: u64, j: u64)
    by (bit_vector)
    requires
        i < 8,
        j < 8,
    ensures
        ((b & !(1u8 << i)) >> j) & 1u8 == if i == j { 0u8 } else { (b >> j) & 1u8 },
{
}

proof fn lemma_zero_bit(j: u64)
    by (bit_vector)
    ensures
        (0u8 >> j) & 1u8 == 0u8,
{
}

proof fn lemma_ones_bit(j: u64)
    by (bit_vector)
    requires
        j < 8,
    ensures
        (255u8 >> j) & 1u8 == 1u8,
{
}

pub(crate) proof fn lemma_test_bit(b: u8, i: u64)
    by (bit_vector)
    requires
        i < 8,
    ensures
        (b & (1u8 << i)) == 0 <==> (b >> i) & 1u8 == 0u8,
        ((b >> i) & 1u8 == 0u8) || ((b >> i) & 1u8 == 1u8),
{
}

/// Distinct bit indices either live in distinct bytes or at distinct positions.
proof fn lemma_bit_position_injective(m: nat, n: nat)
    requires
        m != n,
        m / 8 == n / 8,
    ensures
        m % 8 != n % 8,
{
    assert(m == 8 * (m / 8) + m % 8);
    assert(n == 8 * (n / 8) + n % 8);
}

impl DynamicBitmap {
    /// Whether bit `n` is one; bits beyond the current width read as zero.
    pub closed spec fn bit_set(&self, n: nat) -> bool {
        n / 8 < self.data@.len() && byte_bit(self.data@[(n / 8) as int], (n % 8) as u64)
    }

    pub fn new() -> (r: DynamicBitmap)
        ensures
            forall|n: nat| !r.bit_set(n),
    {
        DynamicBitmap { data: Vec::new() }
    }

    /// Returns true if the bitmap changed; when it did not, the value is
    /// untouched.
    pub fn set_bit(&mut self, n: usize) -> (changed: bool)
        ensures
            changed == !old(self).bit_set(n as nat),
            final(self).bit_set(n as nat),
            forall|m: nat| m != n as nat ==> final(self).bit_set(m) == old(self).bit_set(m),
            !changed ==> *final(self) == *old(self),
    {
        let idx: usize = n / 8;
        let pos: u64 = (n % 8) as u64;
        let bitset: u8 = 1u8 << pos;
        proof {
            assert(n as nat / 8 == idx as nat && n as nat % 8 == pos as nat);
        }
        if idx < self.data.len() {
            let elem = self.data[idx];
            proof {
                lemma_test_bit(elem, pos);
            }
            if elem & bitset == 0 {
                self.data[idx] = elem | bitset;
                proof {
                    self.lemma_byte_update_effect(old(self).data@, idx, n as nat);
                }
                true
            } else {
                false
            }
        } else {
            while self.data.len() <= idx
                invariant
                    self.data@.len() <= idx + 1,
                    self.data@.len() >= old(self).data@.len(),
                    forall|i: int|
                        0 <= i < self.data@.len() ==> self.data@[i] == if i
                            < old(self).data@.len() {
                            old(self).data@[i]
                        } else {
                            0u8
                        },
                decreases idx + 1 - self.data.len(),
            {
                self.data.push(0u8);
            }
            let elem = self.data[idx];
            self.data[idx] = elem | bitset;
            proof {
                assert(elem == 0u8);
                lemma_zero_bit(pos);
                lemma_test_bit(0u8, pos);
                assert forall|m: nat| m != n as nat implies final(self).bit_set(m) == old(
                    self,
                ).bit_set(m) by {
                    if m / 8 < self.data@.len() {
                        if m / 8 == idx as nat {
                            lemma_bit_position_injective(m, n as nat);
                            lemma_or_bit(0u8, pos, (m % 8) as u64);
                            lemma_zero_bit((m % 8) as u64);
                        } else if m / 8 >= old(self).data@.len() {
                            lemma_zero_bit((m % 8) as u64);
                        }
                    }
                }
                lemma_or_bit(0u8, pos, pos);
            }
            true
        }
    }

    /// Returns true if the bitmap changed; when it did not, the value is
    /// untouched.
    pub fn clear_bit(&mut self, n: usize) -> (changed: bool)
        ensures
            changed == old(self).bit_set(n as nat),
            !final(self).bit_set(n as nat),
            forall|m: nat| m != n as nat ==> final(self).bit_set(m) == old(self).bit_set(m),
            !changed ==> *final(self) == *old(self),
    {
        let idx: usize = n / 8;
        let pos: u64 = (n % 8) as u64;
        let bitset: u8 = 1u8 << pos;
        proof {
            assert(n as nat / 8 == idx as nat && n as nat % 8 == pos as nat);
        }
        if idx < self.data.len() {
            let elem = self.data[idx];
            proof {
                lemma_test_bit(elem, pos);
            }
            if elem & bitset != 0 {
                self.data[idx] = elem & !bitset;
                proof {
                    lemma_and_not_bit(elem, pos, pos);
                    assert forall|m: nat| m != n as nat implies final(self).bit_set(m) == old(
                        self,
                    ).bit_set(m) by {
                        if m / 8 == idx as nat {
                            lemma_bit_position_injective(m, n as nat);
                            lemma_and_not_bit(elem, pos, (m % 8) as u64);
                        }
                    }
                }
                true
            } else {
                false
            }
        } else {
            false
        }
    }

    /// Returns true if bit `n` is one.
    pub fn check_bit(&self, n: usize) -> (r: bool)
        ensures
            r == self.bit_set(n as nat),
    {
        let idx: usize = n / 8;
        let pos: u64 = (n % 8) as u64;
        let bitset: u8 = 1u8 << pos;
        proof {
            assert(n as nat / 8 == idx as nat && n as nat % 8 == pos as nat);
        }
        if idx < self.data.len() {
            let elem = self.data[idx];
            proof {
                lemma_test_bit(elem, pos);
            }
            elem & bitset != 0
        } else {
            false
        }
    }

    /// Sets every bit to zero while keeping the current width.
    pub fn clear_map(&mut self)
        ensures
            forall|n: nat| !final(self).bit_set(n),
    {
        let mut i: usize = 0;
        while i < self.data.len()
            invariant
                i <= self.data@.len(),
                forall|k: int| 0 <= k < i ==> self.data@[k] == 0u8,
            decreases self.data@.len() - i,
        {
            self.data[i] = 0u8;
            i = i + 1;
        }
        proof {
            assert forall|n: nat| !final(self).bit_set(n) by {
                if n / 8 < self.data@.len() {
                    lemma_zero_bit((n % 8) as u64);
                }
            }
        }
    }

    /// Sets every bit within the current width to one.
    pub fn fill_map(&mut self)
        ensures
            forall|n: nat|
                final(self).bit_set(n) == (n / 8 < old(self).width()),
            final(self).width() == old(self).width(),
    {
        let mut i: usize = 0;
        while i < self.data.len()
            invariant
                i <= self.data@.len(),
                self.data@.len() == old(self).data@.len(),
                forall|k: int| 0 <= k < i ==> self.data@[k] == 255u8,
            decreases self.data@.len() - i,
        {
            self.data[i] = 255u8;
            i = i + 1;
        }
        proof {
            assert forall|n: nat|
                final(self).bit_set(n) == (n / 8 < old(self).width()) by {
                if n / 8 < self.data@.len() {
                    lemma_ones_bit((n % 8) as u64);
                }
            }
        }
    }

    /// The number of bytes the bitmap currently spans.
    pub closed spec fn width(&self) -> nat {
        self.data@.len()
    }

    proof fn lemma_byte_update_effect(&self, prior: Seq<u8>, idx: usize, n: nat)
        requires
            n / 8 == idx as nat,
            idx < prior.len(),
            self.data@ == prior.update(idx as int, prior[idx as int] | (1u8 << ((n % 8) as u64))),
        ensures
            self.bit_set(n),
            forall|m: nat|
                m != n && m / 8 < prior.len() ==> #[trigger] self.bit_set(m) == (byte_bit(
                    prior[(m / 8) as int],
                    (m % 8) as u64,
                )),
    {
        let pos = (n % 8) as u64;
        lemma_or_bit(prior[idx as int], pos, pos);
        assert forall|m: nat|
            m != n && m / 8 < prior.len() implies #[trigger] self.bit_set(m) == (byte_bit(
            prior[(m / 8) as int],
            (m % 8) as u64,
        )) by {
            if m / 8 == idx as nat {
                lemma_bit_position_injective(m, n);
                lemma_or_bit(prior[idx as int], pos, (m % 8) as u64);
            }
        }
    }
}

} // verus!
