//! The 16-bit word.

use vstd::prelude::*;
use vstd::arithmetic::power2::lemma2_to64;
use crate::word::Word;

verus! {

/// `x` rotated left by `y mod 16` bit positions.
pub open spec fn rotl16(x: u16, y: u16) -> u16 {
    let s = y % 16;
    (x << s) | (x >> ((16 - s) as u16))
}

/// `x` rotated right by `y mod 16` bit positions.
pub open spec fn rotr16(x: u16, y: u16) -> u16 {
    let s = y % 16;
    (x >> s) | (x << ((16 - s) as u16))
}

/// `x + y` reduced modulo 2^16.
pub open spec fn wadd16(x: u16, y: u16) -> u16 {
    if x + y >= 0x1_0000 {
        (x + y - 0x1_0000) as u16
    } else {
        (x + y) as u16
    }
}

/// `x - y` reduced modulo 2^16.
pub open spec fn wsub16(x: u16, y: u16) -> u16 {
    if x - y < 0 {
        (x - y + 0x1_0000) as u16
    } else {
        (x - y) as u16
    }
}

impl Word for u16 {
    open spec fn bits() -> nat {
        16
    }

    open spec fn value(self) -> nat {
        self as nat
    }

    open spec fn wadd_spec(self, o: u16) -> u16 {
        wadd16(self, o)
    }

    open spec fn wsub_spec(self, o: u16) -> u16 {
        wsub16(self, o)
    }

    open spec fn xor_spec(self, o: u16) -> u16 {
        self ^ o
    }

    open spec fn rotl_spec(self, y: u16) -> u16 {
        rotl16(self, y)
    }

    open spec fn rotr_spec(self, y: u16) -> u16 {
        rotr16(self, y)
    }

    open spec fn from_u8_spec(v: u8) -> u16 {
        v as u16
    }

    open spec fn from_usize_spec(v: usize) -> u16 {
        v as u16
    }

    open spec fn p_spec() -> u16 {
        0xb7e1
    }

    open spec fn q_spec() -> u16 {
        0x9e37
    }

    proof fn lemma_bits() {
    }

    proof fn lemma_value(self) {
        lemma2_to64();
    }

    proof fn lemma_wadd_value(a: u16, o: u16) {
        lemma2_to64();
        assert(wadd16(a, o) == (a + o) % 0x1_0000) by (bit_vector);
    }

    proof fn lemma_wsub_value(a: u16, o: u16) {
        lemma2_to64();
        assert(wsub16(a, o) == (a - o) % 0x1_0000) by (bit_vector);
    }

    proof fn lemma_add_sub(a: u16, k: u16) {
        assert(wsub16(wadd16(a, k), k) == a) by (bit_vector);
    }

    proof fn lemma_xor_cancel(a: u16, m: u16) {
        assert(a ^ m ^ m == a) by (bit_vector);
    }

    proof fn lemma_rotr_rotl(x: u16, y: u16) {
        assert(rotr16(rotl16(x, y), y) == x) by (bit_vector);
    }

    proof fn lemma_rotl_rotr(x: u16, y: u16) {
        assert(rotl16(rotr16(x, y), y) == x) by (bit_vector);
    }

    proof fn lemma_rot_width_multiple(x: u16, y: u16) {
        assert(y % 16 == 0 ==> rotl16(x, y) == x && rotr16(x, y) == x) by (bit_vector);
    }

    proof fn lemma_p_q() {
    }

    proof fn lemma_from_u8(v: u8) {
    }

    fn zero() -> u16 {
        0
    }

    fn p_word() -> u16 {
        0xb7e1
    }

    fn q_word() -> u16 {
        0x9e37
    }

    fn num_bytes() -> usize {
        2
    }

    fn from_u8(v: u8) -> u16 {
        v as u16
    }

    fn from_usize(v: usize) -> u16 {
        v as u16
    }

    fn wadd(self, o: u16) -> u16 {
        self.wrapping_add(o)
    }

    fn wsub(self, o: u16) -> u16 {
        self.wrapping_sub(o)
    }

    fn xor(self, o: u16) -> u16 {
        self ^ o
    }

    fn rotl(self, y: u16) -> (r: u16) {
        let s = y % 16;
        if s == 0 {
            proof {
                assert((self << 0u16) | (self >> 16u16) == self) by (bit_vector);
            }
            self
        } else {
            (self << s) | (self >> (16 - s))
        }
    }

    fn rotr(self, y: u16) -> (r: u16) {
        let s = y % 16;
        if s == 0 {
            proof {
                assert((self >> 0u16) | (self << 16u16) == self) by (bit_vector);
            }
            self
        } else {
            (self >> s) | (self << (16 - s))
        }
    }
}

} // verus!
