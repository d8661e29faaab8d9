//! The 32-bit word.

use vstd::prelude::*;
use vstd::arithmetic::power2::lemma2_to64;
use crate::word::Word;

verus! {

/// `x` rotated left by `y mod 32` bit positions.
pub open spec fn rotl32(x: u32, y: u32) -> u32 {
    let s = y % 32;
    (x << s) | (x >> ((32 - s) as u32))
}

/// `x` rotated right by `y mod 32` bit positions.
pub open spec fn rotr32(x: u32, y: u32) -> u32 {
    let s = y % 32;
    (x >> s) | (x << ((32 - s) as u32))
}

/// `x + y` reduced modulo 2^32.
pub open spec fn wadd32(x: u32, y: u32) -> u32 {
    if x + y >= 0x1_0000_0000 {
        (x + y - 0x1_0000_0000) as u32
    } else {
        (x + y) as u32
    }
}

/// `x - y` reduced modulo 2^32.
pub open spec fn wsub32(x: u32, y: u32) -> u32 {
    if x - y < 0 {
        (x - y + 0x1_0000_0000) as u32
    } else {
        (x - y) as u32
    }
}

impl Word for u32 {
    open spec fn bits() -> nat {
        32
    }

    open spec fn value(self) -> nat {
        self as nat
    }

    open spec fn wadd_spec(self, o: u32) -> u32 {
        wadd32(self, o)
    }

    open spec fn wsub_spec(self, o: u32) -> u32 {
        wsub32(self, o)
    }

    open spec fn xor_spec(self, o: u32) -> u32 {
        self ^ o
    }

    open spec fn rotl_spec(self, y: u32) -> u32 {
        rotl32(self, y)
    }

    open spec fn rotr_spec(self, y: u32) -> u32 {
        rotr32(self, y)
    }

    open spec fn from_u8_spec(v: u8) -> u32 {
        v as u32
    }

    open spec fn from_usize_spec(v: usize) -> u32 {
        v as u32
    }

    open spec fn p_spec() -> u32 {
        0xb7e15163
    }

    open spec fn q_spec() -> u32 {
        0x9e3779b9
    }

    proof fn lemma_bits() {
    }

    proof fn lemma_value(self) {
        lemma2_to64();
    }

    proof fn lemma_wadd_value(a: u32, o: u32) {
        lemma2_to64();
        assert(wadd32(a, o) == (a + o) % 0x1_0000_0000) by (bit_vector);
    }

    proof fn lemma_wsub_value(a: u32, o: u32) {
        lemma2_to64();
        assert(wsub32(a, o) == (a - o) % 0x1_0000_0000) by (bit_vector);
    }

    proof fn lemma_add_sub(a: u32, k: u32) {
        assert(wsub32(wadd32(a, k), k) == a) by (bit_vector);
    }

    proof fn lemma_xor_cancel(a: u32, m: u32) {
        assert(a ^ m ^ m == a) by (bit_vector);
    }

    proof fn lemma_rotr_rotl(x: u32, y: u32) {
        assert(rotr32(rotl32(x, y), y) == x) by (bit_vector);
    }

    proof fn lemma_rotl_rotr(x: u32, y: u32) {
        assert(rotl32(rotr32(x, y), y) == x) by (bit_vector);
    }

    proof fn lemma_rot_width_multiple(x: u32, y: u32) {
        assert(y % 32 == 0 ==> rotl32(x, y) == x && rotr32(x, y) == x) by (bit_vector);
    }

    proof fn lemma_p_q() {
    }

    proof fn lemma_from_u8(v: u8) {
    }

    fn zero() -> u32 {
        0
    }

    fn p_word() -> u32 {
        0xb7e15163
    }

    fn q_word() -> u32 {
        0x9e3779b9
    }

    fn num_bytes() -> usize {
        4
    }

    fn from_u8(v: u8) -> u32 {
        v as u32
    }

    fn from_usize(v: usize) -> u32 {
        v as u32
    }

    fn wadd(self, o: u32) -> u32 {
        self.wrapping_add(o)
    }

    fn wsub(self, o: u32) -> u32 {
        self.wrapping_sub(o)
    }

    fn xor(self, o: u32) -> u32 {
        self ^ o
    }

    fn rotl(self, y: u32) -> (r: u32) {
        let s = y % 32;
        if s == 0 {
            proof {
                assert((self << 0u32) | (self >> 32u32) == self) by (bit_vector);
            }
            self
        } else {
            (self << s) | (self >> (32 - s))
        }
    }

    fn rotr(self, y: u32) -> (r: u32) {
        let s = y % 32;
        if s == 0 {
            proof {
                assert((self >> 0u32) | (self << 32u32) == self) by (bit_vector);
            }
            self
        } else {
            (self >> s) | (self << (32 - s))
        }
    }
}

} // verus!
