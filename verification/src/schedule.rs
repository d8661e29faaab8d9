//! The key schedule: expansion of a variable-length byte key into the
//! fixed-size table of round words that encryption and decryption consume.

use vstd::prelude::*;
use crate::word::Word;
use crate::error::Error;

verus! {

/// The length `c` of the intermediate key-as-words buffer for a key of `b`
/// bytes: the number of words needed to hold the key bytes, with a floor of
/// one so that the buffer is never empty even for an empty key.
pub open spec fn words_per_key<W: Word>(b: nat) -> nat {
    let u = W::bits() / 8;
    let words = (b + u - 1) / (u as int);
    if words == 0 {
        1
    } else {
        words as nat
    }
}

/// The key-length floor: even the empty key gets a one-word buffer, so key
/// expansion never works on an empty buffer.
pub proof fn lemma_key_buffer_floor<W: Word>()
    ensures
        words_per_key::<W>(0) == 1,
        forall|b: nat| #[trigger] words_per_key::<W>(b) >= 1,
{
    W::lemma_bits();
    let u0 = (W::bits() / 8) as int;
    assert((0 + u0 - 1) / u0 == 0) by (nonlinear_arith)
        requires
            1 <= u0,
    ;
    assert forall|b: nat| #[trigger] words_per_key::<W>(b) >= 1 by {
        let u = (W::bits() / 8) as int;
        assert((b + u - 1) / u >= 0) by (nonlinear_arith)
            requires
                1 <= u,
                0 <= b,
        ;
    }
}

/// A sequence of `n` all-zero words.
pub open spec fn zero_words<W: Word>(n: nat) -> Seq<W> {
    Seq::new(n, |k: int| W::from_u8_spec(0))
}

/// The key-as-words buffer after packing key bytes `i` and above, each byte
/// folded into its slot `index / bytes-per-word` by rotating the slot left
/// eight bits and adding the byte. The whole buffer is `pack_upto(key, c, 0)`:
/// the bytes enter from the highest index down to index zero, so the
/// lowest-index byte of each word-sized slice of the key lands in the
/// word's least significant byte position.
pub open spec fn pack_upto<W: Word>(key: Seq<u8>, c: nat, i: nat) -> Seq<W>
    decreases key.len() - i,
{
    if i >= key.len() {
        zero_words::<W>(c)
    } else {
        let rest = pack_upto::<W>(key, c, i + 1);
        let slot = (i / (W::bits() / 8)) as int;
        rest.update(
            slot,
            rest[slot].rotl_spec(W::from_u8_spec(8)).wadd_spec(W::from_u8_spec(key[i as int])),
        )
    }
}

/// Entry `i` of the table before mixing: `P` at index zero, then each entry
/// the previous one plus `Q`, wrapping.
pub open spec fn s_entry<W: Word>(i: nat) -> W
    decreases i,
{
    if i == 0 {
        W::p_spec()
    } else {
        s_entry::<W>((i - 1) as nat).wadd_spec(W::q_spec())
    }
}

/// The state of the mixing phase: the table, the key buffer, the two
/// indices and the two mixing words.
pub struct MixState<W> {
    /// The round-key table being mixed.
    pub s: Seq<W>,
    /// The key-as-words buffer being mixed.
    pub l: Seq<W>,
    /// The table index, always below `s.len()`.
    pub i: nat,
    /// The buffer index, always below `l.len()`.
    pub j: nat,
    /// The first mixing word.
    pub a: W,
    /// The second mixing word.
    pub b: W,
}

/// One mixing step: the table entry is rotated left by three bits with both
/// mixing words folded in, then the buffer entry is rotated by the
/// data-dependent amount, and both indices advance cyclically.
pub open spec fn mix_step<W: Word>(st: MixState<W>) -> MixState<W> {
    let a2 = st.s[st.i as int].wadd_spec(st.a).wadd_spec(st.b).rotl_spec(W::from_u8_spec(3));
    let b2 = st.l[st.j as int].wadd_spec(a2).wadd_spec(st.b).rotl_spec(a2.wadd_spec(st.b));
    MixState {
        s: st.s.update(st.i as int, a2),
        l: st.l.update(st.j as int, b2),
        i: (st.i + 1) % st.s.len(),
        j: (st.j + 1) % st.l.len(),
        a: a2,
        b: b2,
    }
}

/// The mixing state after `n` steps from `st`.
pub open spec fn mix_n<W: Word>(st: MixState<W>, n: nat) -> MixState<W>
    decreases n,
{
    if n == 0 {
        st
    } else {
        mix_step(mix_n(st, (n - 1) as nat))
    }
}

/// The expanded key table for `key` and `rounds`: the table of
/// `2 * (rounds + 1)` words seeded from `P` and `Q`, after
/// `3 * max(t, c)` mixing steps against the packed key buffer.
pub open spec fn spec_expand_key<W: Word>(key: Seq<u8>, rounds: nat) -> Seq<W> {
    let t = 2 * (rounds + 1);
    let c = words_per_key::<W>(key.len());
    let st = MixState {
        s: Seq::new(t, |k: int| s_entry::<W>(k as nat)),
        l: pack_upto::<W>(key, c, 0),
        i: 0,
        j: 0,
        a: W::from_u8_spec(0),
        b: W::from_u8_spec(0),
    };
    mix_n(st, 3 * (if t > c { t } else { c })).s
}

/// Expands `key` into the round-key table for `rounds` rounds.
///
/// Succeeds for every round count up to 255 and every key length up to 255
/// bytes, the empty key included; a larger round count is rejected as
/// `InvalidRounds`. The table returned is exactly `spec_expand_key`:
/// a function of the key bytes and the round count alone.
pub fn expand_key<W: Word>(key: &Vec<u8>, rounds: usize) -> (res: Result<Vec<W>, Error>)
    requires
        key@.len() <= 255,
    ensures
        rounds <= 255 ==> (match res {
            Ok(table) => table@ == spec_expand_key::<W>(key@, rounds as nat) && table@.len() == 2
                * (rounds as int + 1),
            Err(_) => false,
        }),
        rounds > 255 ==> res == Err::<Vec<W>, Error>(Error::InvalidRounds),
{
    if rounds > 255 {
        return Err(Error::InvalidRounds);
    }
    proof {
        W::lemma_bits();
    }
    let u = W::num_bytes();
    let b_len = key.len();
    let t = 2 * (rounds + 1);
    let words = (b_len + u - 1) / u;
    let c = if words == 0 {
        1
    } else {
        words
    };
    proof {
        assert(c as nat == words_per_key::<W>(key@.len()));
    }

    let mut l: Vec<W> = Vec::new();
    let mut k: usize = 0;
    while k < c
        invariant
            k <= c,
            l@.len() == k,
            forall|x: int| 0 <= x < k ==> l@[x] == W::from_u8_spec(0),
        decreases c - k,
    {
        l.push(W::zero());
        k = k + 1;
    }
    proof {
        assert(l@ =~= zero_words::<W>(c as nat));
    }

    let mut i: usize = b_len;
    while i > 0
        invariant
            i <= b_len,
            b_len == key@.len(),
            b_len <= 255,
            u as nat == W::bits() / 8,
            1 <= u,
            c as nat == words_per_key::<W>(b_len as nat),
            l@.len() == c,
            l@ == pack_upto::<W>(key@, c as nat, i as nat),
        decreases i,
    {
        i = i - 1;
        proof {
            W::lemma_bits();
            let bi = b_len as int;
            let ui = u as int;
            let ii = i as int;
            assert((bi + ui - 1) / ui >= 1) by (nonlinear_arith)
                requires
                    1 <= ui,
                    1 <= bi,
            ;
            assert(ii / ui < (bi + ui - 1) / ui) by (nonlinear_arith)
                requires
                    1 <= ui,
                    0 <= ii,
                    ii < bi,
            ;
            assert(c as int == (bi + ui - 1) / ui);
            assert(i / u < c);
        }
        let slot = i / u;
        let cur = l[slot];
        l.set(slot, cur.rotl(W::from_u8(8)).wadd(W::from_u8(key[i])));
    }

    let mut s: Vec<W> = Vec::new();
    let mut prev = W::p_word();
    s.push(prev);
    let mut m: usize = 1;
    while m < t
        invariant
            1 <= m <= t,
            s@.len() == m,
            forall|x: int| 0 <= x < m ==> s@[x] == s_entry::<W>(x as nat),
            prev == s_entry::<W>((m - 1) as nat),
        decreases t - m,
    {
        prev = prev.wadd(W::q_word());
        s.push(prev);
        m = m + 1;
    }
    proof {
        assert(s@ =~= Seq::new(t as nat, |k: int| s_entry::<W>(k as nat)));
    }

    let iters = 3 * (if t > c {
        t
    } else {
        c
    });
    let ghost st0 = MixState::<W> {
        s: s@,
        l: l@,
        i: 0,
        j: 0,
        a: W::from_u8_spec(0),
        b: W::from_u8_spec(0),
    };
    let mut ix: usize = 0;
    let mut jx: usize = 0;
    let mut a = W::zero();
    let mut b = W::zero();
    let mut n: usize = 0;
    while n < iters
        invariant
            n <= iters,
            s@.len() == t,
            l@.len() == c,
            2 <= t,
            1 <= c,
            ix < t,
            jx < c,
            st0.s.len() == t,
            st0.l.len() == c,
            (MixState::<W> { s: s@, l: l@, i: ix as nat, j: jx as nat, a: a, b: b }) == mix_n(
                st0,
                n as nat,
            ),
        decreases iters - n,
    {
        let si = s[ix];
        let a2 = si.wadd(a).wadd(b).rotl(W::from_u8(3));
        s.set(ix, a2);
        a = a2;
        let lj = l[jx];
        let b2 = lj.wadd(a).wadd(b).rotl(a.wadd(b));
        l.set(jx, b2);
        b = b2;
        ix = (ix + 1) % t;
        jx = (jx + 1) % c;
        n = n + 1;
    }
    proof {
        assert(s@ == spec_expand_key::<W>(key@, rounds as nat)) by {
            let tn = 2 * (rounds as nat + 1);
            let cn = words_per_key::<W>(key@.len());
            let st_spec = MixState::<W> {
                s: Seq::new(tn, |k: int| s_entry::<W>(k as nat)),
                l: pack_upto::<W>(key@, cn, 0),
                i: 0,
                j: 0,
                a: W::from_u8_spec(0),
                b: W::from_u8_spec(0),
            };
            assert(st0.s =~= st_spec.s);
            assert(st0 == st_spec);
            assert(iters as nat == 3 * (if tn > cn {
                tn
            } else {
                cn
            }));
        }
    }
    Ok(s)
}

} // verus!
