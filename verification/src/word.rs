//! The word abstraction: a fixed-width unsigned integer with the wrapping
//! arithmetic, bitwise operations and circular rotations the cipher needs,
//! together with the per-width key-schedule constants P and Q.

use vstd::prelude::*;
use vstd::arithmetic::power2::pow2;

verus! {

/// The constant P for a given bit width: the odd integer closest to
/// (e - 2) * 2^w, where e is Euler's number.
pub open spec fn p_of(w: nat) -> nat {
    if w == 8 {
        0xb7
    } else if w == 16 {
        0xb7e1
    } else if w == 32 {
        0xb7e15163
    } else if w == 64 {
        0xb7e151628aed2a6b
    } else {
        0
    }
}

/// The constant Q for a given bit width: the odd integer closest to
/// (phi - 1) * 2^w, where phi is the golden ratio.
pub open spec fn q_of(w: nat) -> nat {
    if w == 8 {
        0x9f
    } else if w == 16 {
        0x9e37
    } else if w == 32 {
        0x9e3779b9
    } else if w == 64 {
        0x9e3779b97f4a7c15
    } else {
        0
    }
}

/// A fixed-width unsigned integer, the cipher's native arithmetic unit.
///
/// A width selection fixes the bit width and the constants P and Q. All
/// arithmetic wraps modulo 2^bits, rotations reduce their amount modulo the
/// bit width, and conversions from narrower values zero-extend. The proof
/// obligations state the algebraic laws the cipher's correctness rests on:
/// wrapping subtraction undoes wrapping addition, XOR is an involution, and
/// the two rotations are exact inverses for every unreduced amount.
pub trait Word: Sized + Copy {
    /// The bit width of the word.
    spec fn bits() -> nat;

    /// The numeric value held by the word.
    spec fn value(self) -> nat;

    /// Wrapping addition modulo 2^bits.
    spec fn wadd_spec(self, o: Self) -> Self;

    /// Wrapping subtraction modulo 2^bits.
    spec fn wsub_spec(self, o: Self) -> Self;

    /// Bitwise exclusive or.
    spec fn xor_spec(self, o: Self) -> Self;

    /// Left circular rotation by the amount's value taken modulo the width.
    spec fn rotl_spec(self, y: Self) -> Self;

    /// Right circular rotation by the amount's value taken modulo the width.
    spec fn rotr_spec(self, y: Self) -> Self;

    /// The word holding a single byte, zero-extended.
    spec fn from_u8_spec(v: u8) -> Self;

    /// The word holding a machine-size integer, zero-extended or truncated
    /// to the width.
    spec fn from_usize_spec(v: usize) -> Self;

    /// The key-schedule constant P for this width.
    spec fn p_spec() -> Self;

    /// The key-schedule constant Q for this width.
    spec fn q_spec() -> Self;

    /// The width is one of the four supported ones.
    proof fn lemma_bits()
        ensures
            Self::bits() == 8 || Self::bits() == 16 || Self::bits() == 32 || Self::bits() == 64,
    ;

    /// A word's value lies below 2^bits.
    proof fn lemma_value(self)
        ensures
            self.value() < pow2(Self::bits()),
    ;

    /// Wrapping addition is addition of the values modulo 2^bits.
    proof fn lemma_wadd_value(a: Self, o: Self)
        ensures
            a.wadd_spec(o).value() == (a.value() + o.value()) % pow2(Self::bits()),
    ;

    /// Wrapping subtraction is subtraction of the values modulo 2^bits.
    proof fn lemma_wsub_value(a: Self, o: Self)
        ensures
            a.wsub_spec(o).value() == (a.value() as int - o.value() as int) % (pow2(
                Self::bits(),
            ) as int),
    ;

    /// Wrapping subtraction undoes wrapping addition of the same word.
    proof fn lemma_add_sub(a: Self, k: Self)
        ensures
            a.wadd_spec(k).wsub_spec(k) == a,
    ;

    /// XOR with the same word twice gives the original back.
    proof fn lemma_xor_cancel(a: Self, m: Self)
        ensures
            a.xor_spec(m).xor_spec(m) == a,
    ;

    /// Rotating right undoes rotating left by the same unreduced amount.
    proof fn lemma_rotr_rotl(x: Self, y: Self)
        ensures
            x.rotl_spec(y).rotr_spec(y) == x,
    ;

    /// Rotating left undoes rotating right by the same unreduced amount.
    proof fn lemma_rotl_rotr(x: Self, y: Self)
        ensures
            x.rotr_spec(y).rotl_spec(y) == x,
    ;

    /// Rotation by any multiple of the width leaves the word unchanged.
    proof fn lemma_rot_width_multiple(x: Self, y: Self)
        requires
            y.value() % Self::bits() == 0,
        ensures
            x.rotl_spec(y) == x,
            x.rotr_spec(y) == x,
    ;

    /// P and Q hold the published constants for this width.
    proof fn lemma_p_q()
        ensures
            Self::p_spec().value() == p_of(Self::bits()),
            Self::q_spec().value() == q_of(Self::bits()),
    ;

    /// Conversion from a byte preserves the byte's value.
    proof fn lemma_from_u8(v: u8)
        ensures
            Self::from_u8_spec(v).value() == v as nat,
    ;

    /// The all-zero word.
    fn zero() -> (r: Self)
        ensures
            r == Self::from_u8_spec(0),
    ;

    /// The key-schedule constant P.
    fn p_word() -> (r: Self)
        ensures
            r == Self::p_spec(),
    ;

    /// The key-schedule constant Q.
    fn q_word() -> (r: Self)
        ensures
            r == Self::q_spec(),
    ;

    /// The width of the word in bytes.
    fn num_bytes() -> (r: usize)
        ensures
            r as nat == Self::bits() / 8,
            8 * r as nat == Self::bits(),
    ;

    /// Builds the word holding a single byte.
    fn from_u8(v: u8) -> (r: Self)
        ensures
            r == Self::from_u8_spec(v),
    ;

    /// Builds the word holding a machine-size integer.
    fn from_usize(v: usize) -> (r: Self)
        ensures
            r == Self::from_usize_spec(v),
    ;

    /// Wrapping addition.
    fn wadd(self, o: Self) -> (r: Self)
        ensures
            r == self.wadd_spec(o),
    ;

    /// Wrapping subtraction.
    fn wsub(self, o: Self) -> (r: Self)
        ensures
            r == self.wsub_spec(o),
    ;

    /// Bitwise exclusive or.
    fn xor(self, o: Self) -> (r: Self)
        ensures
            r == self.xor_spec(o),
    ;

    /// Left circular rotation by the amount's value modulo the width.
    fn rotl(self, y: Self) -> (r: Self)
        ensures
            r == self.rotl_spec(y),
    ;

    /// Right circular rotation by the amount's value modulo the width.
    fn rotr(self, y: Self) -> (r: Self)
        ensures
            r == self.rotr_spec(y),
    ;
}

/// Rotates `x` left by `y mod bits` bit positions. Total: never fails.
pub fn rotl<W: Word>(x: W, y: W) -> (r: W)
    ensures
        r == x.rotl_spec(y),
{
    x.rotl(y)
}

/// Rotates `x` right by `y mod bits` bit positions. Total: never fails.
pub fn rotr<W: Word>(x: W, y: W) -> (r: W)
    ensures
        r == x.rotr_spec(y),
{
    x.rotr(y)
}

/// The rotation inverse law: for all words `x` and all amounts `y`, rotating
/// left then right by `y` gives `x` back, and so does rotating right then
/// left.
pub proof fn lemma_rotation_inverse<W: Word>(x: W, y: W)
    ensures
        x.rotl_spec(y).rotr_spec(y) == x,
        x.rotr_spec(y).rotl_spec(y) == x,
{
    W::lemma_rotr_rotl(x, y);
    W::lemma_rotl_rotr(x, y);
}

/// Rotation by a multiple of the width is the identity: every amount whose
/// value is divisible by the width leaves the word unchanged.
pub proof fn lemma_rotation_width_multiple<W: Word>(x: W, y: W)
    requires
        y.value() % W::bits() == 0,
    ensures
        x.rotl_spec(y) == x,
        x.rotr_spec(y) == x,
{
    W::lemma_rot_width_multiple(x, y);
}

/// Rotation by `k` times the width is the identity, for every `k >= 0`: the
/// word holding `k * bits`, reduced modulo 2^bits as any word value is,
/// still carries an amount divisible by the width, so rotating by it leaves
/// the word unchanged.
pub proof fn lemma_rotation_k_widths<W: Word>(x: W, y: W, k: nat)
    requires
        y.value() == (k * W::bits()) % pow2(W::bits()),
    ensures
        x.rotl_spec(y) == x,
        x.rotr_spec(y) == x,
{
    W::lemma_bits();
    vstd::arithmetic::power2::lemma2_to64();
    let w = W::bits() as int;
    let m = pow2(W::bits()) as int;
    let kk = k as int;
    assert(m % w == 0);
    vstd::arithmetic::div_mod::lemma_fundamental_div_mod(m, w);
    let d = m / w;
    vstd::arithmetic::div_mod::lemma_fundamental_div_mod(kk * w, m);
    let q = (kk * w) / m;
    assert(y.value() as int == kk * w - m * q);
    assert(kk * w - m * q == (kk - d * q) * w) by (nonlinear_arith)
        requires
            m == w * d,
    ;
    vstd::arithmetic::div_mod::lemma_mod_multiples_basic(kk - d * q, w);
    W::lemma_rot_width_multiple(x, y);
}

} // verus!
