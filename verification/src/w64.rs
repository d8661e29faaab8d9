//! The 64-bit word.

use vstd::prelude::*;
use vstd::arithmetic::power2::lemma2_to64;
use crate::word::Word;

verus! {

/// `x` rotated left by `y mod 64` bit positions.
pub open spec fn rotl64(x: u64, y: u64) -> u64 {
    let s = y % 64;
    (x << s) | (x >> ((64 - s) as u64))
}

/// `x` rotated right by `y mod 64` bit positions.
pub open spec fn rotr64(x: u64, y: u64) -> u64 {
    let s = y % 64;
    (x >> s) | (x << ((64 - s) as u64))
}

/// `x + y` reduced modulo 2^64.
pub open spec fn wadd64(x: u64, y: u64) -> u64 {
    if x + y >= 0x1_0000_0000_0000_0000 {
        (x + y - 0x1_0000_0000_0000_0000) as u64
    } else {
        (x + y) as u64
    }
}

/// `x - y` reduced modulo 2^64.
pub open spec fn wsub64(x: u64, y: u64) -> u64 {
    if x - y < 0 {
        (x - y + 0x1_0000_0000_0000_0000) as u64
    } else {
        (x - y) as u64
    }
}

impl Word for u64 {
    open spec fn bits() -> nat {
        64
    }

    open spec fn value(self) -> nat {
        self as nat
    }

    open spec fn wadd_spec(self, o: u64) -> u64 {
        wadd64(self, o)
    }

    open spec fn wsub_spec(self, o: u64) -> u64 {
        wsub64(self, o)
    }

    open spec fn xor_spec(self, o: u64) -> u64 {
        self ^ o
    }

    open spec fn rotl_spec(self, y: u64) -> u64 {
        rotl64(self, y)
    }

    open spec fn rotr_spec(self, y: u64) -> u64 {
        rotr64(self, y)
    }

    open spec fn from_u8_spec(v: u8) -> u64 {
        v as u64
    }

    open spec fn from_usize_spec(v: usize) -> u64 {
        v as u64
    }

    open spec fn p_spec() -> u64 {
        0xb7e151628aed2a6b
    }

    open spec fn q_spec() -> u64 {
        0x9e3779b97f4a7c15
    }

    proof fn lemma_bits() {
    }

    proof fn lemma_value(self) {
        lemma2_to64();
    }

    proof fn lemma_wadd_value(a: u64, o: u64) {
        lemma2_to64();
        assert(wadd64(a, o) == (a + o) % 0x1_0000_0000_0000_0000) by (bit_vector);
    }

    proof fn lemma_wsub_value(a: u64, o: u64) {
        lemma2_to64();
        assert(wsub64(a, o) == (a - o) % 0x1_0000_0000_0000_0000) by (bit_vector);
    }

    proof fn lemma_add_sub(a: u64, k: u64) {
        assert(wsub64(wadd64(a, k), k) == a) by (bit_vector);
    }

    proof fn lemma_xor_cancel(a: u64, m: u64) {
        assert(a ^ m ^ m == a) by (bit_vector);
    }

    proof fn lemma_rotr_rotl(x: u64, y: u64) {
        assert(rotr64(rotl64(x, y), y) == x) by (bit_vector);
    }

    proof fn lemma_rotl_rotr(x: u64, y: u64) {
        assert(rotl64(rotr64(x, y), y) == x) by (bit_vector);
    }

    proof fn lemma_rot_width_multiple(x: u64, y: u64) {
        assert(y % 64 == 0 ==> rotl64(x, y) == x && rotr64(x, y) == x) by (bit_vector);
    }

    proof fn lemma_p_q() {
    }

    proof fn lemma_from_u8(v: u8) {
    }

    fn zero() -> u64 {
        0
    }

    fn p_word() -> u64 {
        0xb7e151628aed2a6b
    }

    fn q_word() -> u64 {
        0x9e3779b97f4a7c15
    }

    fn num_bytes() -> usize {
        8
    }

    fn from_u8(v: u8) -> u64 {
        v as u64
    }

    fn from_usize(v: usize) -> u64 {
        v as u64
    }

    fn wadd(self, o: u64) -> u64 {
        self.wrapping_add(o)
    }

    fn wsub(self, o: u64) -> u64 {
        self.wrapping_sub(o)
    }

    fn xor(self, o: u64) -> u64 {
        self ^ o
    }

    fn rotl(self, y: u64) -> (r: u64) {
        let s = y % 64;
        if s == 0 {
            proof {
                assert((self << 0u64) | (self >> 64u64) == self) by (bit_vector);
            }
            self
        } else {
            (self << s) | (self >> (64 - s))
        }
    }

    fn rotr(self, y: u64) -> (r: u64) {
        let s = y % 64;
        if s == 0 {
            proof {
                assert((self >> 0u64) | (self << 64u64) == self) by (bit_vector);
            }
            self
        } else {
            (self >> s) | (self << (64 - s))
        }
    }
}

} // verus!
