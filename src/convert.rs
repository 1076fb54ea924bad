//! Renderings of wire bytes as text: decimal numbers, binary digits,
//! colon-separated hex, and characters.
use vstd::prelude::*;
use vstd::string::StrSliceExecFns;

use crate::wire::{
    be_value,
    bits_of,
    bits_value,
    lemma_bits_of_value,
    lemma_bits_value_bound,
    lemma_bits_value_concat,
    lemma_pow2_monotonic,
    lemma_pow_values,
    read_be,
    to_bits,
};

verus! {

/// The digit character of `d` in base 16 (upper case); base 10 uses the first ten.
pub open spec fn digit_char(d: nat) -> char {
    if d == 0 {
        '0'
    } else if d == 1 {
        '1'
    } else if d == 2 {
        '2'
    } else if d == 3 {
        '3'
    } else if d == 4 {
        '4'
    } else if d == 5 {
        '5'
    } else if d == 6 {
        '6'
    } else if d == 7 {
        '7'
    } else if d == 8 {
        '8'
    } else if d == 9 {
        '9'
    } else if d == 10 {
        'A'
    } else if d == 11 {
        'B'
    } else if d == 12 {
        'C'
    } else if d == 13 {
        'D'
    } else if d == 14 {
        'E'
    } else {
        'F'
    }
}

/// The decimal digits of `n`, without leading zeros.
pub open spec fn decimal_text(n: nat) -> Seq<char>
    decreases n,
{
    if n < 10 {
        seq![digit_char(n)]
    } else {
        decimal_text(n / 10).push(digit_char(n % 10))
    }
}

/// The two upper-case hex digits of a byte.
pub open spec fn hex_pair(b: u8) -> Seq<char> {
    seq![digit_char(b as nat / 16), digit_char(b as nat % 16)]
}

/// The bytes of `s` as two hex digits each, separated by colons.
pub open spec fn hex_text(s: Seq<u8>) -> Seq<char>
    decreases s.len(),
{
    if s.len() == 0 {
        Seq::empty()
    } else if s.len() == 1 {
        hex_pair(s[0])
    } else {
        hex_text(s.drop_last()) + seq![':'] + hex_pair(s.last())
    }
}

/// The character of a binary digit.
pub open spec fn bit_char(b: bool) -> char {
    if b {
        '1'
    } else {
        '0'
    }
}

/// The eight binary digits of a byte, most significant first.
pub open spec fn byte_binary(b: u8) -> Seq<char> {
    bits_of(b as nat, 8).map_values(|x: bool| bit_char(x))
}

/// The bytes of `s` as eight binary digits each.
pub open spec fn binary_text(s: Seq<u8>) -> Seq<char>
    decreases s.len(),
{
    if s.len() == 0 {
        Seq::empty()
    } else {
        binary_text(s.drop_last()) + byte_binary(s.last())
    }
}

/// The bits of a text of binary digits: every character but `'0'` is a one.
pub open spec fn text_bits(s: Seq<char>) -> Seq<bool> {
    s.map_values(|c: char| c != '0')
}

/// The text that `String::from_utf8_lossy` makes of a byte sequence.
pub uninterp spec fn utf8_lossy(b: Seq<u8>) -> Seq<char>;

/// Relies on `String::from_utf8_lossy`: the bytes decoded as UTF-8, with
/// invalid sequences replaced; the result depends on the bytes alone.
#[verifier::external_body]
fn lossy_text(b: &[u8]) -> (r: String)
    ensures
        r@ == utf8_lossy(b@),
{
    String::from_utf8_lossy(b).into_owned()
}

/// Relies on `String::push`: appends one character.
#[verifier::external_body]
fn push_char(s: &mut String, c: char)
    ensures
        final(s)@ == old(s)@.push(c),
{
    s.push(c)
}

fn digit(d: u64) -> (r: char)
    requires
        d < 16,
    ensures
        r == digit_char(d as nat),
{
    match d {
        0 => '0',
        1 => '1',
        2 => '2',
        3 => '3',
        4 => '4',
        5 => '5',
        6 => '6',
        7 => '7',
        8 => '8',
        9 => '9',
        10 => 'A',
        11 => 'B',
        12 => 'C',
        13 => 'D',
        14 => 'E',
        _ => 'F',
    }
}

/// Appends the decimal digits of `n`.
pub fn push_decimal(s: &mut String, n: u64)
    ensures
        final(s)@ == old(s)@ + decimal_text(n as nat),
    decreases n,
{
    if n >= 10 {
        push_decimal(s, n / 10);
    }
    push_char(s, digit(n % 10));
    assert(final(s)@ =~= old(s)@ + decimal_text(n as nat)) by {
        if n >= 10 {
            assert(decimal_text(n as nat) == decimal_text((n / 10) as nat).push(digit_char((n % 10) as nat)));
        }
    }
}

/// The decimal text of `n`.
pub fn decimal(n: u64) -> (r: String)
    ensures
        r@ == decimal_text(n as nat),
{
    let mut s = String::new();
    push_decimal(&mut s, n);
    assert(s@ =~= decimal_text(n as nat));
    s
}

/// The decimal text of up to two bytes read big-endian.
pub fn as_base10(v: Vec<u8>) -> (r: String)
    requires
        v@.len() <= 2,
    ensures
        r@ == decimal_text(be_value(v@)),
{
    decimal(read_be(v.as_slice()))
}

/// The bytes as text, decoded as UTF-8 with invalid sequences replaced.
pub fn as_ascii(arr: Vec<u8>) -> (r: String)
    ensures
        r@ == utf8_lossy(arr@),
{
    lossy_text(arr.as_slice())
}

/// The bytes from `lbound` up to `ubound`, in order or reversed, as text.
pub fn array_segment_to_string(arr: &[u8], lbound: usize, ubound: usize, reverse: bool) -> (r:
    String)
    requires
        lbound <= ubound <= arr@.len(),
    ensures
        reverse ==> r@ == utf8_lossy(arr@.subrange(lbound as int, ubound as int).reverse()),
        !reverse ==> r@ == utf8_lossy(arr@.subrange(lbound as int, ubound as int)),
{
    let mut sub: Vec<u8> = Vec::new();
    let mut i: usize = lbound;
    while i < ubound
        invariant
            lbound <= i <= ubound <= arr@.len(),
            sub@ == arr@.subrange(lbound as int, i as int),
        decreases ubound - i,
    {
        sub.push(arr[i]);
        i = i + 1;
        assert(sub@ =~= arr@.subrange(lbound as int, i as int));
    }
    if reverse {
        sub = reversed(&sub);
    }
    lossy_text(sub.as_slice())
}

/// The elements of `v` in reverse order.
pub fn reversed(v: &Vec<u8>) -> (r: Vec<u8>)
    ensures
        r@ == v@.reverse(),
{
    let mut r: Vec<u8> = Vec::new();
    let mut i: usize = v.len();
    while i > 0
        invariant
            i <= v@.len(),
            r@ == v@.subrange(i as int, v@.len() as int).reverse(),
        decreases i,
    {
        i = i - 1;
        r.push(v[i]);
        assert(r@ =~= v@.subrange(i as int, v@.len() as int).reverse());
    }
    assert(v@.subrange(0, v@.len() as int) =~= v@);
    r
}

/// The bytes as eight binary digits each, most significant bit first.
pub fn as_boolean(v: Vec<u8>) -> (r: String)
    ensures
        r@ == binary_text(v@),
{
    let mut s = String::new();
    let mut i: usize = 0;
    while i < v.len()
        invariant
            i <= v@.len(),
            s@ == binary_text(v@.subrange(0, i as int)),
        decreases v@.len() - i,
    {
        let bits = to_bits(v[i] as u64, 8);
        let ghost start = s@;
        proof {
            lemma_pow_values();
            lemma_bits_of_value(v@[i as int] as nat, 8);
        }
        let mut k: usize = 0;
        while k < 8
            invariant
                k <= 8,
                i < v@.len(),
                bits@ == bits_of(v@[i as int] as nat, 8),
                bits@.len() == 8,
                s@ == start + bits@.subrange(0, k as int).map_values(|x: bool| bit_char(x)),
            decreases 8 - k,
        {
            push_char(&mut s, if bits[k] { '1' } else { '0' });
            k = k + 1;
            assert(s@ =~= start + bits@.subrange(0, k as int).map_values(|x: bool| bit_char(x)));
        }
        proof {
            assert(bits@.subrange(0, 8) =~= bits@);
            assert(v@.subrange(0, i + 1).drop_last() =~= v@.subrange(0, i as int));
        }
        i = i + 1;
    }
    assert(v@.subrange(0, i as int) =~= v@);
    s
}

/// The bytes as two upper-case hex digits each, separated by colons.
pub fn as_hex(arr: Vec<u8>) -> (r: String)
    ensures
        r@ == hex_text(arr@),
{
    let mut s = String::new();
    let mut i: usize = 0;
    while i < arr.len()
        invariant
            i <= arr@.len(),
            s@ == hex_text(arr@.subrange(0, i as int)),
        decreases arr@.len() - i,
    {
        if i > 0 {
            push_char(&mut s, ':');
        }
        let b = arr[i];
        push_char(&mut s, digit((b / 16) as u64));
        push_char(&mut s, digit((b % 16) as u64));
        proof {
            let sub = arr@.subrange(0, i + 1);
            assert(sub.drop_last() =~= arr@.subrange(0, i as int));
            assert(s@ =~= hex_text(sub));
        }
        i = i + 1;
    }
    assert(arr@.subrange(0, i as int) =~= arr@);
    s
}

/// The value of a text of binary digits of at most 64 characters.
fn fold_bits(bits: &str) -> (r: u64)
    requires
        bits@.len() <= 64,
    ensures
        r == bits_value(text_bits(bits@)),
{
    let n = bits.unicode_len();
    let mut acc: u64 = 0;
    let mut i: usize = 0;
    while i < n
        invariant
            n == bits@.len() <= 64,
            i <= n,
            acc == bits_value(text_bits(bits@.subrange(0, i as int))),
        decreases n - i,
    {
        let c = bits.get_char(i);
        proof {
            let pre = bits@.subrange(0, i as int);
            lemma_bits_value_bound(text_bits(pre));
            lemma_pow2_monotonic((i + 1) as nat, 64);
            lemma_pow_values();
            assert(text_bits(bits@.subrange(0, i + 1)).drop_last() =~= text_bits(pre));
            assert(text_bits(pre).len() == i);
        }
        acc = acc * 2 + if c == '0' { 0 } else { 1 };
        i = i + 1;
    }
    assert(bits@.subrange(0, i as int) =~= bits@);
    acc
}

/// The value of a text of at most eight binary digits.
pub fn bitstr_to_u8(bits: &str) -> (r: u8)
    requires
        bits@.len() <= 8,
    ensures
        r == bits_value(text_bits(bits@)),
{
    proof {
        lemma_bits_value_bound(text_bits(bits@));
        lemma_pow2_monotonic(bits@.len(), 8);
        lemma_pow_values();
    }
    fold_bits(bits) as u8
}

/// The value of a text of at most sixteen binary digits.
pub fn bitstr_to_u16(bits: &str) -> (r: u16)
    requires
        bits@.len() <= 16,
    ensures
        r == bits_value(text_bits(bits@)),
{
    proof {
        lemma_bits_value_bound(text_bits(bits@));
        lemma_pow2_monotonic(bits@.len(), 16);
        lemma_pow_values();
    }
    fold_bits(bits) as u16
}

/// The value of a text of at most thirty-two binary digits.
pub fn bitstr_to_u32(bits: &str) -> (r: u32)
    requires
        bits@.len() <= 32,
    ensures
        r == bits_value(text_bits(bits@)),
{
    proof {
        lemma_bits_value_bound(text_bits(bits@));
        lemma_pow2_monotonic(bits@.len(), 32);
        lemma_pow_values();
    }
    fold_bits(bits) as u32
}

/// The binary digits of a byte sequence, read back as bits, have the value of
/// the bytes read big-endian.
pub proof fn lemma_binary_text_value(s: Seq<u8>)
    ensures
        bits_value(text_bits(binary_text(s))) == be_value(s),
        binary_text(s).len() == 8 * s.len(),
    decreases s.len(),
{
    if s.len() > 0 {
        let pre = s.drop_last();
        let b = s.last();
        lemma_binary_text_value(pre);
        lemma_pow_values();
        lemma_bits_of_value(b as nat, 8);
        let bt = byte_binary(b);
        assert(text_bits(bt) =~= bits_of(b as nat, 8));
        assert(text_bits(binary_text(s)) =~= text_bits(binary_text(pre)) + text_bits(bt));
        lemma_bits_value_concat(text_bits(binary_text(pre)), text_bits(bt));
    }
}

} // verus!
