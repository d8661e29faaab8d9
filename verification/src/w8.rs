//! The 8-bit word.

use vstd::prelude::*;
use vstd::arithmetic::power2::lemma2_to64;
use crate::word::Word;

verus! {

/// `x` rotated left by `y mod 8` bit positions.
pub open spec fn rotl8(x: u8, y: u8) -> u8 {
    let s = y % 8;
    (x << s) | (x >> ((8 - s) as u8))
}

/// `x` rotated right by `y mod 8` bit positions.
pub open spec fn rotr8(x: u8, y: u8) -> u8 {
    let s = y % 8;
    (x >> s) | (x << ((8 - s) as u8))
}

/// `x + y` reduced modulo 2^8.
pub open spec fn wadd8(x: u8, y: u8) -> u8 {
    if x + y >= 0x100 {
        (x + y - 0x100) as u8
    } else {
        (x + y) as u8
    }
}

/// `x - y` reduced modulo 2^8.
pub open spec fn wsub8(x: u8, y: u8) -> u8 {
    if x - y < 0 {
        (x - y + 0x100) as u8
    } else {
        (x - y) as u8
    }
}

impl Word for u8 {
    open spec fn bits() -> nat {
        8
    }

    open spec fn value(self) -> nat {
        self as nat
    }

    open spec fn wadd_spec(self, o: u8) -> u8 {
        wadd8(self, o)
    }

    open spec fn wsub_spec(self, o: u8) -> u8 {
        wsub8(self, o)
    }

    open spec fn xor_spec(self, o: u8) -> u8 {
        self ^ o
    }

    open spec fn rotl_spec(self, y: u8) -> u8 {
        rotl8(self, y)
    }

    open spec fn rotr_spec(self, y: u8) -> u8 {
        rotr8(self, y)
    }

    open spec fn from_u8_spec(v: u8) -> u8 {
        v
    }

    open spec fn from_usize_spec(v: usize) -> u8 {
        v as u8
    }

    open spec fn p_spec() -> u8 {
        0xb7
    }

    open spec fn q_spec() -> u8 {
        0x9f
    }

    proof fn lemma_bits() {
    }

    proof fn lemma_value(self) {
        lemma2_to64();
    }

    proof fn lemma_wadd_value(a: u8, o: u8) {
        lemma2_to64();
        assert(wadd8(a, o) == (a + o) % 0x100) by (bit_vector);
    }

    proof fn lemma_wsub_value(a: u8, o: u8) {
        lemma2_to64();
        assert(wsub8(a, o) == (a - o) % 0x100) by (bit_vector);
    }

    proof fn lemma_add_sub(a: u8, k: u8) {
        assert(wsub8(wadd8(a, k), k) == a) by (bit_vector);
    }

    proof fn lemma_xor_cancel(a: u8, m: u8) {
        assert(a ^ m ^ m == a) by (bit_vector);
    }

    proof fn lemma_rotr_rotl(x: u8, y: u8) {
        assert(rotr8(rotl8(x, y), y) == x) by (bit_vector);
    }

    proof fn lemma_rotl_rotr(x: u8, y: u8) {
        assert(rotl8(rotr8(x, y), y) == x) by (bit_vector);
    }

    proof fn lemma_rot_width_multiple(x: u8, y: u8) {
        assert(y % 8 == 0 ==> rotl8(x, y) == x && rotr8(x, y) == x) by (bit_vector);
    }

    proof fn lemma_p_q() {
    }

    proof fn lemma_from_u8(v: u8) {
    }

    fn zero() -> u8 {
        0
    }

    fn p_word() -> u8 {
        0xb7
    }

    fn q_word() -> u8 {
        0x9f
    }

    fn num_bytes() -> usize {
        1
    }

    fn from_u8(v: u8) -> u8 {
        v
    }

    fn from_usize(v: usize) -> u8 {
        v as u8
    }

    fn wadd(self, o: u8) -> u8 {
        self.wrapping_add(o)
    }

    fn wsub(self, o: u8) -> u8 {
        self.wrapping_sub(o)
    }

    fn xor(self, o: u8) -> u8 {
        self ^ o
    }

    fn rotl(self, y: u8) -> (r: u8) {
        let s = y % 8;
        if s == 0 {
            proof {
                assert((self << 0u8) | (self >> 8u8) == self) by (bit_vector);
            }
            self
        } else {
            (self << s) | (self >> (8 - s))
        }
    }

    fn rotr(self, y: u8) -> (r: u8) {
        let s = y % 8;
        if s == 0 {
            proof {
                assert((self >> 0u8) | (self << 8u8) == self) by (bit_vector);
            }
            self
        } else {
            (self >> s) | (self << (8 - s))
        }
    }
}

} // verus!
