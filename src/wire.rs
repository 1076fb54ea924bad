//! Mathematical model of the wire: byte sequences read as integers, integers
//! written as byte sequences, and bit sequences folded into integers.
use vstd::prelude::*;

verus! {

/// Two to the power `n`.
pub open spec fn pow2(n: nat) -> nat
    decreases n,
{
    if n == 0 {
        1
    } else {
        2 * pow2((n - 1) as nat)
    }
}

/// Two hundred and fifty-six to the power `n`.
pub open spec fn pow256(n: nat) -> nat
    decreases n,
{
    if n == 0 {
        1
    } else {
        256 * pow256((n - 1) as nat)
    }
}

/// The value of `s` read as a big-endian unsigned integer (first byte most significant).
pub open spec fn be_value(s: Seq<u8>) -> nat
    decreases s.len(),
{
    if s.len() == 0 {
        0
    } else {
        (be_value(s.drop_last()) * 256 + s.last()) as nat
    }
}

/// The value of `s` read as a little-endian unsigned integer (first byte least significant).
pub open spec fn le_value(s: Seq<u8>) -> nat {
    be_value(s.reverse())
}

/// The `n` low-order bytes of `x`, most significant first.
pub open spec fn be_bytes(x: nat, n: nat) -> Seq<u8>
    decreases n,
{
    if n == 0 {
        Seq::empty()
    } else {
        be_bytes(x / 256, (n - 1) as nat).push((x % 256) as u8)
    }
}

/// The `n` low-order bytes of `x`, least significant first.
pub open spec fn le_bytes(x: nat, n: nat) -> Seq<u8> {
    be_bytes(x, n).reverse()
}

/// The value of a bit sequence, first bit most significant.
pub open spec fn bits_value(s: Seq<bool>) -> nat
    decreases s.len(),
{
    if s.len() == 0 {
        0
    } else {
        bits_value(s.drop_last()) * 2 + (if s.last() { 1nat } else { 0nat })
    }
}

/// The `w` low-order bits of `v`, most significant first.
pub open spec fn bits_of(v: nat, w: nat) -> Seq<bool>
    decreases w,
{
    if w == 0 {
        Seq::empty()
    } else {
        bits_of(v / 2, (w - 1) as nat).push(v % 2 == 1)
    }
}

/// Writing `n` bytes gives `n` bytes, whatever the value.
pub proof fn lemma_be_bytes_len(x: nat, n: nat)
    ensures
        be_bytes(x, n).len() == n,
    decreases n,
{
    if n > 0 {
        lemma_be_bytes_len(x / 256, (n - 1) as nat);
    }
}

/// Writing `x` in `n` big-endian bytes and reading them back gives `x`, when it fits.
pub proof fn lemma_be_bytes_value(x: nat, n: nat)
    requires
        x < pow256(n),
    ensures
        be_value(be_bytes(x, n)) == x,
        be_bytes(x, n).len() == n,
    decreases n,
{
    lemma_be_bytes_len(x, n);
    if n > 0 {
        lemma_be_bytes_value(x / 256, (n - 1) as nat);
        let s = be_bytes(x, n);
        assert(s.drop_last() =~= be_bytes(x / 256, (n - 1) as nat));
    }
}

/// Reversing twice gives the sequence back.
pub proof fn lemma_reverse_reverse<A>(s: Seq<A>)
    ensures
        s.reverse().reverse() == s,
        s.reverse().len() == s.len(),
{
    assert(s.reverse().reverse() =~= s);
}

/// Writing `x` in `n` little-endian bytes and reading them back gives `x`, when it fits.
pub proof fn lemma_le_bytes_value(x: nat, n: nat)
    requires
        x < pow256(n),
    ensures
        le_value(le_bytes(x, n)) == x,
        le_bytes(x, n).len() == n,
{
    lemma_be_bytes_value(x, n);
    lemma_reverse_reverse(be_bytes(x, n));
}

/// A big-endian value is below `256` to the power of its length.
pub proof fn lemma_be_value_bound(s: Seq<u8>)
    ensures
        be_value(s) < pow256(s.len()),
    decreases s.len(),
{
    if s.len() > 0 {
        lemma_be_value_bound(s.drop_last());
    }
}

/// The value of a concatenation of bit sequences.
pub proof fn lemma_bits_value_concat(a: Seq<bool>, b: Seq<bool>)
    ensures
        bits_value(a + b) == bits_value(a) * pow2(b.len()) + bits_value(b),
    decreases b.len(),
{
    if b.len() == 0 {
        assert(a + b =~= a);
        assert(pow2(0) == 1);
        assert(bits_value(a) * 1 == bits_value(a));
    } else {
        lemma_bits_value_concat(a, b.drop_last());
        assert((a + b).drop_last() =~= a + b.drop_last());
        assert((a + b).last() == b.last());
        let p = pow2((b.len() - 1) as nat);
        let va = bits_value(a);
        assert(pow2(b.len()) == 2 * p);
        assert(va * (2 * p) == (va * p) * 2) by (nonlinear_arith);
        assert(bits_value(a + b) == bits_value(a + b.drop_last()) * 2 + (if b.last() { 1nat } else { 0nat }));
        assert(bits_value(b) == bits_value(b.drop_last()) * 2 + (if b.last() { 1nat } else { 0nat }));
    }
}

/// A bit sequence's value is below two to the power of its length.
pub proof fn lemma_bits_value_bound(s: Seq<bool>)
    ensures
        bits_value(s) < pow2(s.len()),
    decreases s.len(),
{
    if s.len() > 0 {
        lemma_bits_value_bound(s.drop_last());
    }
}

/// The low-order bits of `v`, folded back, give `v` when it fits in the width.
pub proof fn lemma_bits_of_value(v: nat, w: nat)
    requires
        v < pow2(w),
    ensures
        bits_value(bits_of(v, w)) == v,
        bits_of(v, w).len() == w,
    decreases w,
{
    if w > 0 {
        lemma_bits_of_value(v / 2, (w - 1) as nat);
        assert(bits_of(v, w).drop_last() =~= bits_of(v / 2, (w - 1) as nat));
    }
}

/// The powers that the fixed-width fields use.
pub proof fn lemma_pow_values()
    ensures
        pow256(1) == 0x100,
        pow256(2) == 0x1_0000,
        pow256(4) == 0x1_0000_0000,
        pow256(8) == 0x1_0000_0000_0000_0000,
        pow2(1) == 2,
        pow2(2) == 4,
        pow2(6) == 64,
        pow2(8) == 256,
        pow2(12) == 4096,
        pow2(16) == 65536,
        pow2(32) == 0x1_0000_0000,
        pow2(64) == 0x1_0000_0000_0000_0000,
{
    reveal_with_fuel(pow256, 9);
    reveal_with_fuel(pow2, 65);
}

/// The value of a single bit.
pub proof fn lemma_bits_value_single(b: bool)
    ensures
        bits_value(seq![b]) == (if b { 1nat } else { 0nat }),
{
    let s = seq![b];
    assert(s.drop_last() =~= Seq::<bool>::empty());
    assert(s.last() == b);
    assert(bits_value(s) == bits_value(s.drop_last()) * 2 + (if s.last() { 1nat } else { 0nat }));
}

/// Powers of two grow with the exponent.
pub proof fn lemma_pow2_monotonic(a: nat, b: nat)
    requires
        a <= b,
    ensures
        pow2(a) <= pow2(b),
    decreases b,
{
    if a < b {
        lemma_pow2_monotonic(a, (b - 1) as nat);
    }
}

/// Powers of 256 grow with the exponent.
pub proof fn lemma_pow256_monotonic(a: nat, b: nat)
    requires
        a <= b,
    ensures
        pow256(a) <= pow256(b),
    decreases b,
{
    if a < b {
        lemma_pow256_monotonic(a, (b - 1) as nat);
    }
}

/// The `width` low-order bits of `value`, most significant first.
pub fn to_bits(value: u64, width: usize) -> (r: Vec<bool>)
    ensures
        r@ == bits_of(value as nat, width as nat),
    decreases width,
{
    if width == 0 {
        Vec::new()
    } else {
        let mut r = to_bits(value / 2, width - 1);
        r.push(value % 2 == 1);
        r
    }
}

/// The value of up to eight bytes read big-endian.
pub fn read_be(v: &[u8]) -> (r: u64)
    requires
        v@.len() <= 8,
    ensures
        r == be_value(v@),
{
    let mut acc: u64 = 0;
    let mut i: usize = 0;
    while i < v.len()
        invariant
            i <= v@.len() <= 8,
            acc == be_value(v@.subrange(0, i as int)),
        decreases v@.len() - i,
    {
        proof {
            lemma_be_value_bound(v@.subrange(0, i as int));
            lemma_pow256_monotonic((i + 1) as nat, 8);
            lemma_pow_values();
            assert(v@.subrange(0, i + 1).drop_last() =~= v@.subrange(0, i as int));
        }
        acc = acc * 256 + v[i] as u64;
        i = i + 1;
    }
    assert(v@.subrange(0, i as int) =~= v@);
    acc
}

} // verus!
