use vstd::prelude::*;

verus! {

/// A fixed-width unsigned integer used as an array of bits: bit `i` is the
/// bit of weight `2^i`.
pub trait BitArray: Sized {
    /// The number of bits the store holds.
    spec fn bit_len() -> nat;

    /// Whether bit `i` is set; false for every `i` outside `[0, bit_len())`.
    spec fn has_bit(&self, i: int) -> bool;

    /// An array with every bit clear, able to hold `min_length` bits.
    fn new_zero(min_length: usize) -> (r: Self)
        requires
            min_length <= Self::bit_len(),
        ensures
            forall|i: int| !r.has_bit(i),
    ;

    fn bit_get(&self, index: usize) -> (r: bool)
        requires
            index < Self::bit_len(),
        ensures
            r == self.has_bit(index as int),
    ;

    /// Sets bit `index` to `value` and leaves the others as they were.
    fn bit_set(&mut self, index: usize, value: bool)
        requires
            index < Self::bit_len(),
        ensures
            forall|i: int|
                #[trigger] final(self).has_bit(i) == if i == index {
                    value
                } else {
                    old(self).has_bit(i)
                },
    ;
}

/// What a shift and a mask of `u8` do to its bits.
proof fn lemma_bits_u8(x: u8, i: u8, k: u8)
    requires
        i < 8,
        k < 8,
    ensures
        (0u8 >> i) & 1 != 1,
        (x & (1u8 << k) != 0) == ((x >> k) & 1 == 1),
        (((x | (1u8 << k)) >> i) & 1 == 1) == (i == k || (x >> i) & 1 == 1),
        (((x & !(1u8 << k)) >> i) & 1 == 1) == (i != k && (x >> i) & 1 == 1),
{
    assert((0u8 >> i) & 1 != 1 && (x & (1u8 << k) != 0) == ((x >> k) & 1 == 1) && (((x
        | (1u8 << k)) >> i) & 1 == 1) == (i == k || (x >> i) & 1 == 1) && (((x & !(1u8 << k)) >> i) & 1 == 1) == (i != k && (x >> i) & 1 == 1)) by (bit_vector)
        requires
            i < 8,
            k < 8,
    ;
}

impl BitArray for u8 {
    open spec fn bit_len() -> nat {
        8
    }

    open spec fn has_bit(&self, i: int) -> bool {
        0 <= i < 8 && (*self >> (i as u8)) & 1 == 1
    }

    fn new_zero(min_length: usize) -> (r: u8) {
        let r: u8 = 0;
        assert forall|i: int| !r.has_bit(i) by {
            if 0 <= i < 8 {
                lemma_bits_u8(0, i as u8, 0);
            }
        }
        r
    }

    fn bit_get(&self, index: usize) -> (r: bool) {
        proof {
            lemma_bits_u8(*self, 0, index as u8);
        }
        *self & (1u8 << (index as u8)) != 0
    }

    fn bit_set(&mut self, index: usize, value: bool) {
        let ghost before = *self;
        if value {
            *self = *self | (1u8 << (index as u8));
        } else {
            *self = *self & !(1u8 << (index as u8));
        }
        assert forall|i: int|
            #[trigger] self.has_bit(i) == if i == index {
                value
            } else {
                before.has_bit(i)
            } by {
            if 0 <= i < 8 {
                lemma_bits_u8(before, i as u8, index as u8);
            }
        }
    }
}

/// What a shift and a mask of `u16` do to its bits.
proof fn lemma_bits_u16(x: u16, i: u16, k: u16)
    requires
        i < 16,
        k < 16,
    ensures
        (0u16 >> i) & 1 != 1,
        (x & (1u16 << k) != 0) == ((x >> k) & 1 == 1),
        (((x | (1u16 << k)) >> i) & 1 == 1) == (i == k || (x >> i) & 1 == 1),
        (((x & !(1u16 << k)) >> i) & 1 == 1) == (i != k && (x >> i) & 1 == 1),
{
    assert((0u16 >> i) & 1 != 1 && (x & (1u16 << k) != 0) == ((x >> k) & 1 == 1) && (((x
        | (1u16 << k)) >> i) & 1 == 1) == (i == k || (x >> i) & 1 == 1) && (((x & !(1u16 << k)) >> i) & 1 == 1) == (i != k && (x >> i) & 1 == 1)) by (bit_vector)
        requires
            i < 16,
            k < 16,
    ;
}

impl BitArray for u16 {
    open spec fn bit_len() -> nat {
        16
    }

    open spec fn has_bit(&self, i: int) -> bool {
        0 <= i < 16 && (*self >> (i as u16)) & 1 == 1
    }

    fn new_zero(min_length: usize) -> (r: u16) {
        let r: u16 = 0;
        assert forall|i: int| !r.has_bit(i) by {
            if 0 <= i < 16 {
                lemma_bits_u16(0, i as u16, 0);
            }
        }
        r
    }

    fn bit_get(&self, index: usize) -> (r: bool) {
        proof {
            lemma_bits_u16(*self, 0, index as u16);
        }
        *self & (1u16 << (index as u16)) != 0
    }

    fn bit_set(&mut self, index: usize, value: bool) {
        let ghost before = *self;
        if value {
            *self = *self | (1u16 << (index as u16));
        } else {
            *self = *self & !(1u16 << (index as u16));
        }
        assert forall|i: int|
            #[trigger] self.has_bit(i) == if i == index {
                value
            } else {
                before.has_bit(i)
            } by {
            if 0 <= i < 16 {
                lemma_bits_u16(before, i as u16, index as u16);
            }
        }
    }
}

/// What a shift and a mask of `u32` do to its bits.
proof fn lemma_bits_u32(x: u32, i: u32, k: u32)
    requires
        i < 32,
        k < 32,
    ensures
        (0u32 >> i) & 1 != 1,
        (x & (1u32 << k) != 0) == ((x >> k) & 1 == 1),
        (((x | (1u32 << k)) >> i) & 1 == 1) == (i == k || (x >> i) & 1 == 1),
        (((x & !(1u32 << k)) >> i) & 1 == 1) == (i != k && (x >> i) & 1 == 1),
{
    assert((0u32 >> i) & 1 != 1 && (x & (1u32 << k) != 0) == ((x >> k) & 1 == 1) && (((x
        | (1u32 << k)) >> i) & 1 == 1) == (i == k || (x >> i) & 1 == 1) && (((x & !(1u32 << k)) >> i) & 1 == 1) == (i != k && (x >> i) & 1 == 1)) by (bit_vector)
        requires
            i < 32,
            k < 32,
    ;
}

impl BitArray for u32 {
    open spec fn bit_len() -> nat {
        32
    }

    open spec fn has_bit(&self, i: int) -> bool {
        0 <= i < 32 && (*self >> (i as u32)) & 1 == 1
    }

    fn new_zero(min_length: usize) -> (r: u32) {
        let r: u32 = 0;
        assert forall|i: int| !r.has_bit(i) by {
            if 0 <= i < 32 {
                lemma_bits_u32(0, i as u32, 0);
            }
        }
        r
    }

    fn bit_get(&self, index: usize) -> (r: bool) {
        proof {
            lemma_bits_u32(*self, 0, index as u32);
        }
        *self & (1u32 << (index as u32)) != 0
    }

    fn bit_set(&mut self, index: usize, value: bool) {
        let ghost before = *self;
        if value {
            *self = *self | (1u32 << (index as u32));
        } else {
            *self = *self & !(1u32 << (index as u32));
        }
        assert forall|i: int|
            #[trigger] self.has_bit(i) == if i == index {
                value
            } else {
                before.has_bit(i)
            } by {
            if 0 <= i < 32 {
                lemma_bits_u32(before, i as u32, index as u32);
            }
        }
    }
}

/// What a shift and a mask of `u64` do to its bits.
proof fn lemma_bits_u64(x: u64, i: u64, k: u64)
    requires
        i < 64,
        k < 64,
    ensures
        (0u64 >> i) & 1 != 1,
        (x & (1u64 << k) != 0) == ((x >> k) & 1 == 1),
        (((x | (1u64 << k)) >> i) & 1 == 1) == (i == k || (x >> i) & 1 == 1),
        (((x & !(1u64 << k)) >> i) & 1 == 1) == (i != k && (x >> i) & 1 == 1),
{
    assert((0u64 >> i) & 1 != 1 && (x & (1u64 << k) != 0) == ((x >> k) & 1 == 1) && (((x
        | (1u64 << k)) >> i) & 1 == 1) == (i == k || (x >> i) & 1 == 1) && (((x & !(1u64 << k)) >> i) & 1 == 1) == (i != k && (x >> i) & 1 == 1)) by (bit_vector)
        requires
            i < 64,
            k < 64,
    ;
}

impl BitArray for u64 {
    open spec fn bit_len() -> nat {
        64
    }

    open spec fn has_bit(&self, i: int) -> bool {
        0 <= i < 64 && (*self >> (i as u64)) & 1 == 1
    }

    fn new_zero(min_length: usize) -> (r: u64) {
        let r: u64 = 0;
        assert forall|i: int| !r.has_bit(i) by {
            if 0 <= i < 64 {
                lemma_bits_u64(0, i as u64, 0);
            }
        }
        r
    }

    fn bit_get(&self, index: usize) -> (r: bool) {
        proof {
            lemma_bits_u64(*self, 0, index as u64);
        }
        *self & (1u64 << (index as u64)) != 0
    }

    fn bit_set(&mut self, index: usize, value: bool) {
        let ghost before = *self;
        if value {
            *self = *self | (1u64 << (index as u64));
        } else {
            *self = *self & !(1u64 << (index as u64));
        }
        assert forall|i: int|
            #[trigger] self.has_bit(i) == if i == index {
                value
            } else {
                before.has_bit(i)
            } by {
            if 0 <= i < 64 {
                lemma_bits_u64(before, i as u64, index as u64);
            }
        }
    }
}

/// What a shift and a mask of `u128` do to its bits.
proof fn lemma_bits_u128(x: u128, i: u128, k: u128)
    requires
        i < 128,
        k < 128,
    ensures
        (0u128 >> i) & 1 != 1,
        (x & (1u128 << k) != 0) == ((x >> k) & 1 == 1),
        (((x | (1u128 << k)) >> i) & 1 == 1) == (i == k || (x >> i) & 1 == 1),
        (((x & !(1u128 << k)) >> i) & 1 == 1) == (i != k && (x >> i) & 1 == 1),
{
    assert((0u128 >> i) & 1 != 1 && (x & (1u128 << k) != 0) == ((x >> k) & 1 == 1) && (((x
        | (1u128 << k)) >> i) & 1 == 1) == (i == k || (x >> i) & 1 == 1) && (((x & !(1u128 << k)) >> i) & 1 == 1) == (i != k && (x >> i) & 1 == 1)) by (bit_vector)
        requires
            i < 128,
            k < 128,
    ;
}

impl BitArray for u128 {
    open spec fn bit_len() -> nat {
        128
    }

    open spec fn has_bit(&self, i: int) -> bool {
        0 <= i < 128 && (*self >> (i as u128)) & 1 == 1
    }

    fn new_zero(min_length: usize) -> (r: u128) {
        let r: u128 = 0;
        assert forall|i: int| !r.has_bit(i) by {
            if 0 <= i < 128 {
                lemma_bits_u128(0, i as u128, 0);
            }
        }
        r
    }

    fn bit_get(&self, index: usize) -> (r: bool) {
        proof {
            lemma_bits_u128(*self, 0, index as u128);
        }
        *self & (1u128 << (index as u128)) != 0
    }

    fn bit_set(&mut self, index: usize, value: bool) {
        let ghost before = *self;
        if value {
            *self = *self | (1u128 << (index as u128));
        } else {
            *self = *self & !(1u128 << (index as u128));
        }
        assert forall|i: int|
            #[trigger] self.has_bit(i) == if i == index {
                value
            } else {
                before.has_bit(i)
            } by {
            if 0 <= i < 128 {
                lemma_bits_u128(before, i as u128, index as u128);
            }
        }
    }
}

} // verus!
