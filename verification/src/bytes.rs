//! Fixed-width EVM words and calldata made of them.

use vstd::prelude::*;

verus! {

/// The `n` low-order bytes of `v`, most significant first.
pub open spec fn be_bytes(v: nat, n: nat) -> Seq<u8>
    decreases n,
{
    if n == 0 {
        Seq::empty()
    } else {
        be_bytes(v / 256, (n - 1) as nat).push((v % 256) as u8)
    }
}

/// The 32-byte big-endian EVM word that holds `v` (taken modulo 2^256).
pub open spec fn word_bytes(v: nat) -> Seq<u8> {
    be_bytes(v, 32)
}

/// The 32-byte big-endian encoding of `value`, as an EVM word.
pub fn word_from_u64(value: u64) -> (w: [u8; 32])
    ensures
        w@ == word_bytes(value as nat),
{
    let mut w: [u8; 32] = [0u8; 32];
    let mut rem: u64 = value;
    let mut k: usize = 0;
    while k < 32
        invariant
            k <= 32,
            w@.len() == 32,
            be_bytes(value as nat, 32) == be_bytes(rem as nat, (32 - k) as nat) + w@.subrange(
                32 - k,
                32,
            ),
        decreases 32 - k,
    {
        let ghost old_w = w@;
        let idx: usize = 31 - k;
        w[idx] = (rem % 256) as u8;
        proof {
            let m = (32 - k) as nat;
            assert(be_bytes(rem as nat, m) == be_bytes((rem / 256) as nat, (m - 1) as nat).push(
                (rem % 256) as u8,
            ));
            assert(w@.subrange(32 - (k + 1), 32) == seq![(rem % 256) as u8] + old_w.subrange(
                32 - k,
                32,
            ));
            assert(be_bytes((rem / 256) as nat, (m - 1) as nat).push((rem % 256) as u8)
                + old_w.subrange(32 - k, 32) == be_bytes((rem / 256) as nat, (m - 1) as nat) + (
            seq![(rem % 256) as u8] + old_w.subrange(32 - k, 32)));
        }
        rem = rem / 256;
        k = k + 1;
    }
    assert(w@.subrange(0, 32) == w@);
    w
}

/// 256 to the power `k`.
pub open spec fn pow256(k: nat) -> nat
    decreases k,
{
    if k == 0 {
        1
    } else {
        256 * pow256((k - 1) as nat)
    }
}

proof fn lemma_be_bytes_len(v: nat, n: nat)
    ensures
        be_bytes(v, n).len() == n,
    decreases n,
{
    if n > 0 {
        lemma_be_bytes_len(v / 256, (n - 1) as nat);
    }
}

proof fn lemma_pow256_8()
    ensures
        pow256(8) == 0x1_0000_0000_0000_0000,
{
    reveal_with_fuel(pow256, 9);
}

/// Splitting a number into a high part and `k` low bytes splits its
/// big-endian bytes alike.
proof fn lemma_be_bytes_split(a: nat, b: nat, n: nat, k: nat)
    requires
        b < pow256(k),
    ensures
        be_bytes(a * pow256(k) + b, n + k) == be_bytes(a, n) + be_bytes(b, k),
    decreases k,
{
    if k == 0 {
        assert(b == 0);
        assert(a * pow256(k) + b == a);
        assert(be_bytes(b, k) =~= Seq::<u8>::empty());
        assert(be_bytes(a, n) + Seq::<u8>::empty() =~= be_bytes(a, n));
    } else {
        let p = pow256((k - 1) as nat);
        let x = a * pow256(k) + b;
        let q = a * p + b / 256;
        assert(x == q * 256 + b % 256) by (nonlinear_arith)
            requires
                x == a * (256 * p) + b,
                q == a * p + b / 256,
                b == 256 * (b / 256) + b % 256,
        ;
        vstd::arithmetic::div_mod::lemma_fundamental_div_mod_converse(x as int, 256, q as int, (b % 256) as int);
        assert(b / 256 < p) by (nonlinear_arith)
            requires
                b < 256 * p,
                b == 256 * (b / 256) + b % 256,
                0 <= b % 256,
        ;
        lemma_be_bytes_split(a, b / 256, n, (k - 1) as nat);
        assert((n + k - 1) as nat == n + (k - 1) as nat);
        assert(be_bytes(x, n + k) == be_bytes(q, (n + k - 1) as nat).push((x % 256) as u8));
        assert(be_bytes(b, k) == be_bytes(b / 256, (k - 1) as nat).push((b % 256) as u8));
        assert(be_bytes(x, n + k) =~= be_bytes(a, n) + be_bytes(b, k));
    }
}

/// A 256-bit EVM integer, as four 64-bit limbs, least significant first.
#[derive(Debug, Clone, Copy)]
pub struct Word256 {
    pub limbs: [u64; 4],
}

impl Word256 {
    /// The number that the limbs make.
    pub open spec fn value(self) -> nat {
        self.limbs@[0] as nat + self.limbs@[1] as nat * 0x1_0000_0000_0000_0000 + self.limbs@[2] as nat
            * 0x1_0000_0000_0000_0000_0000_0000_0000_0000 + self.limbs@[3] as nat
            * 0x1_0000_0000_0000_0000_0000_0000_0000_0000_0000_0000_0000_0000
    }
}

/// The eight big-endian bytes of `x`.
fn limb_bytes(x: u64) -> (b: [u8; 8])
    ensures
        b@ == be_bytes(x as nat, 8),
{
    let w = word_from_u64(x);
    proof {
        lemma_pow256_8();
        lemma_be_bytes_split(0, x as nat, 24, 8);
        assert(0 * pow256(8) + x as nat == x as nat);
        lemma_be_bytes_len(0, 24);
        assert(w@ == be_bytes(0, 24) + be_bytes(x as nat, 8));
        assert(w@.subrange(24, 32) =~= be_bytes(x as nat, 8));
    }
    let b: [u8; 8] = [w[24], w[25], w[26], w[27], w[28], w[29], w[30], w[31]];
    assert(b@ =~= w@.subrange(24, 32));
    b
}

/// The 32-byte big-endian encoding of `value`, as an EVM word.
pub fn word(value: Word256) -> (w: [u8; 32])
    ensures
        w@ == word_bytes(value.value()),
{
    let b0 = limb_bytes(value.limbs[0]);
    let b1 = limb_bytes(value.limbs[1]);
    let b2 = limb_bytes(value.limbs[2]);
    let b3 = limb_bytes(value.limbs[3]);
    let w: [u8; 32] = [
        b3[0], b3[1], b3[2], b3[3], b3[4], b3[5], b3[6], b3[7],
        b2[0], b2[1], b2[2], b2[3], b2[4], b2[5], b2[6], b2[7],
        b1[0], b1[1], b1[2], b1[3], b1[4], b1[5], b1[6], b1[7],
        b0[0], b0[1], b0[2], b0[3], b0[4], b0[5], b0[6], b0[7],
    ];
    proof {
        let l0 = value.limbs@[0] as nat;
        let l1 = value.limbs@[1] as nat;
        let l2 = value.limbs@[2] as nat;
        let l3 = value.limbs@[3] as nat;
        let p: nat = 0x1_0000_0000_0000_0000;
        lemma_pow256_8();
        let hi = l3 * p + l2;
        let mid = hi * p + l1;
        assert(mid * p + l0 == value.value()) by (nonlinear_arith)
            requires
                hi == l3 * p + l2,
                mid == hi * p + l1,
                p == 0x1_0000_0000_0000_0000,
                value.value() == l0 + l1 * 0x1_0000_0000_0000_0000 + l2
                    * 0x1_0000_0000_0000_0000_0000_0000_0000_0000 + l3
                    * 0x1_0000_0000_0000_0000_0000_0000_0000_0000_0000_0000_0000_0000,
        ;
        lemma_be_bytes_split(l3, l2, 8, 8);
        lemma_be_bytes_split(hi, l1, 16, 8);
        lemma_be_bytes_split(mid, l0, 24, 8);
        assert(w@ =~= b3@ + b2@ + b1@ + b0@);
    }
    w
}

/// The concatenation of the words that hold `values`, one after the other.
pub open spec fn words_calldata(values: Seq<Word256>) -> Seq<u8>
    decreases values.len(),
{
    if values.len() == 0 {
        Seq::empty()
    } else {
        words_calldata(values.drop_last()) + word_bytes(values.last().value())
    }
}

/// ABI calldata made of the words that hold `values`, one after the other.
pub fn calldata_words(values: &[Word256]) -> (calldata: Vec<u8>)
    ensures
        calldata@ == words_calldata(values@),
{
    let mut calldata: Vec<u8> = Vec::new();
    let mut i: usize = 0;
    while i < values.len()
        invariant
            i <= values@.len(),
            calldata@ == words_calldata(values@.take(i as int)),
        decreases values@.len() - i,
    {
        let w: [u8; 32] = word(values[i]);
        let mut j: usize = 0;
        let ghost before = calldata@;
        while j < 32
            invariant
                j <= 32,
                w@.len() == 32,
                calldata@ == before + w@.take(j as int),
            decreases 32 - j,
        {
            calldata.push(w[j]);
            assert(w@.take(j + 1) == w@.take(j as int).push(w@[j as int]));
            j = j + 1;
        }
        assert(w@.take(32) == w@);
        assert(values@.take(i + 1).drop_last() == values@.take(i as int));
        i = i + 1;
    }
    assert(values@.take(values@.len() as int) == values@);
    calldata
}

/// Lexicographic order on byte strings, the order of `[u8]` in std: a
/// proper prefix comes first.
pub open spec fn lex_le(a: Seq<u8>, b: Seq<u8>) -> bool
    decreases a.len(),
{
    if a.len() == 0 {
        true
    } else if b.len() == 0 {
        false
    } else if a[0] != b[0] {
        a[0] < b[0]
    } else {
        lex_le(a.drop_first(), b.drop_first())
    }
}

pub proof fn lemma_lex_total(a: Seq<u8>, b: Seq<u8>)
    ensures
        lex_le(a, b) || lex_le(b, a),
    decreases a.len(),
{
    if a.len() > 0 && b.len() > 0 && a[0] == b[0] {
        lemma_lex_total(a.drop_first(), b.drop_first());
    }
}

pub proof fn lemma_lex_antisymmetric(a: Seq<u8>, b: Seq<u8>)
    requires
        lex_le(a, b),
        lex_le(b, a),
    ensures
        a == b,
    decreases a.len(),
{
    if a.len() > 0 && b.len() > 0 {
        lemma_lex_antisymmetric(a.drop_first(), b.drop_first());
        assert(a == seq![a[0]] + a.drop_first());
        assert(b == seq![b[0]] + b.drop_first());
    }
}

pub proof fn lemma_lex_transitive(a: Seq<u8>, b: Seq<u8>, c: Seq<u8>)
    requires
        lex_le(a, b),
        lex_le(b, c),
    ensures
        lex_le(a, c),
    decreases a.len(),
{
    if a.len() > 0 && b.len() > 0 && c.len() > 0 && a[0] == b[0] && b[0] == c[0] {
        lemma_lex_transitive(a.drop_first(), b.drop_first(), c.drop_first());
    }
}

pub proof fn lemma_lex_reflexive(a: Seq<u8>)
    ensures
        lex_le(a, a),
    decreases a.len(),
{
    if a.len() > 0 {
        lemma_lex_reflexive(a.drop_first());
    }
}

/// Whether two byte strings are equal.
pub fn bytes_eq(a: &[u8], b: &[u8]) -> (r: bool)
    ensures
        r == (a@ == b@),
{
    if a.len() != b.len() {
        return false;
    }
    let mut i: usize = 0;
    while i < a.len()
        invariant
            i <= a@.len(),
            a@.len() == b@.len(),
            a@.take(i as int) == b@.take(i as int),
        decreases a@.len() - i,
    {
        if a[i] != b[i] {
            return false;
        }
        assert(a@.take(i + 1) == a@.take(i as int).push(a@[i as int]));
        assert(b@.take(i + 1) == b@.take(i as int).push(b@[i as int]));
        i = i + 1;
    }
    assert(a@.take(a@.len() as int) == a@);
    assert(b@.take(b@.len() as int) == b@);
    true
}

/// Whether `a` comes before or equals `b` in lexicographic order.
pub fn bytes_le(a: &[u8], b: &[u8]) -> (r: bool)
    ensures
        r == lex_le(a@, b@),
{
    let mut i: usize = 0;
    assert(a@.skip(0) == a@);
    assert(b@.skip(0) == b@);
    while i < a.len() && i < b.len()
        invariant
            i <= a@.len(),
            i <= b@.len(),
            lex_le(a@, b@) == lex_le(a@.skip(i as int), b@.skip(i as int)),
        decreases a@.len() - i,
    {
        assert(a@.skip(i as int)[0] == a@[i as int]);
        assert(b@.skip(i as int)[0] == b@[i as int]);
        if a[i] != b[i] {
            return a[i] < b[i];
        }
        assert(a@.skip(i as int).drop_first() == a@.skip(i + 1));
        assert(b@.skip(i as int).drop_first() == b@.skip(i + 1));
        i = i + 1;
    }
    a.len() <= b.len()
}

} // verus!
