use vstd::prelude::*;
use vstd::string::StringSliceAdditionalSpecFns;

use crate::md5_spec::{
    hex_char,
    hex_upper,
    md5_bit_length,
    md5_block_words,
    md5_compress,
    md5_digest,
    md5_fold,
    md5_hex,
    md5_mix,
    md5_ops,
    md5_padded,
    md5_shift,
    md5_table,
    md5_word_index,
    md5_zero_count,
    Md5State,
};
use crate::word::Word;

verus! {

/// Relies on `String::push`, which appends one char to the end of the string.
#[verifier::external_body]
fn push_char(s: &mut String, c: char)
    ensures
        final(s)@ == old(s)@.push(c),
{
    s.push(c)
}

/// The 64 round constants, entry `i` being the integer part of
/// `2^32 * |sin(i + 1)|`.
fn elements_table() -> (r: [u32; 64])
    ensures
        r@ == md5_table(),
{
    let t: [u32; 64] = [
        0xd76aa478, 0xe8c7b756, 0x242070db, 0xc1bdceee, 0xf57c0faf, 0x4787c62a, 0xa8304613, 0xfd469501,
        0x698098d8, 0x8b44f7af, 0xffff5bb1, 0x895cd7be, 0x6b901122, 0xfd987193, 0xa679438e, 0x49b40821,
        0xf61e2562, 0xc040b340, 0x265e5a51, 0xe9b6c7aa, 0xd62f105d, 0x02441453, 0xd8a1e681, 0xe7d3fbc8,
        0x21e1cde6, 0xc33707d6, 0xf4d50d87, 0x455a14ed, 0xa9e3e905, 0xfcefa3f8, 0x676f02d9, 0x8d2a4c8a,
        0xfffa3942, 0x8771f681, 0x6d9d6122, 0xfde5380c, 0xa4beea44, 0x4bdecfa9, 0xf6bb4b60, 0xbebfbc70,
        0x289b7ec6, 0xeaa127fa, 0xd4ef3085, 0x04881d05, 0xd9d4d039, 0xe6db99e5, 0x1fa27cf8, 0xc4ac5665,
        0xf4292244, 0x432aff97, 0xab9423a7, 0xfc93a039, 0x655b59c3, 0x8f0ccc92, 0xffeff47d, 0x85845dd1,
        0x6fa87e4f, 0xfe2ce6e0, 0xa3014314, 0x4e0811a1, 0xf7537e82, 0xbd3af235, 0x2ad7d2bb, 0xeb86d391,
    ];
    assert(t@ =~= md5_table());
    t
}

/// The nonlinear function of operation `i`.
fn mix_function(i: usize, b: u32, c: u32, d: u32) -> (r: u32)
    ensures
        r == md5_mix(i as int, b, c, d),
{
    if i < 16 {
        (b & c) | (!b & d)
    } else if i < 32 {
        (b & d) | (c & !d)
    } else if i < 48 {
        b ^ c ^ d
    } else {
        c ^ (b | !d)
    }
}

/// The message word that operation `i` adds.
fn word_index(i: usize) -> (r: usize)
    requires
        i < 64,
    ensures
        r as int == md5_word_index(i as int),
        r < 16,
{
    if i < 16 {
        i
    } else if i < 32 {
        (5 * i + 1) % 16
    } else if i < 48 {
        (3 * i + 5) % 16
    } else {
        (7 * i) % 16
    }
}

/// The rotation of operation `i`.
fn shift(i: usize) -> (r: u32)
    ensures
        r == md5_shift(i as int),
{
    let r = i % 4;
    if i < 16 {
        if r == 0 { 7 } else if r == 1 { 12 } else if r == 2 { 17 } else { 22 }
    } else if i < 32 {
        if r == 0 { 5 } else if r == 1 { 9 } else if r == 2 { 14 } else { 20 }
    } else if i < 48 {
        if r == 0 { 4 } else if r == 1 { 11 } else if r == 2 { 16 } else { 23 }
    } else {
        if r == 0 { 6 } else if r == 1 { 10 } else if r == 2 { 15 } else { 21 }
    }
}

/// Runs the 64 operations of one block and adds the accumulators back.
fn compress(st: Md5State, x: &Vec<u32>, table: &[u32; 64]) -> (r: Md5State)
    requires
        x@.len() == 16,
        table@ == md5_table(),
    ensures
        r == md5_compress(st, x@),
{
    let mut a = st.0;
    let mut b = st.1;
    let mut c = st.2;
    let mut d = st.3;
    let mut i: usize = 0;
    while i < 64
        invariant
            i <= 64,
            x@.len() == 16,
            table@ == md5_table(),
            (a, b, c, d) == md5_ops(x@, st, i as nat),
        decreases 64 - i,
    {
        let f = mix_function(i, b, c, d);
        let g = word_index(i);
        let t = Word::wrapping_add(Word::wrapping_add(Word::wrapping_add(a, f), x[g]), table[i]);
        let nb = Word::wrapping_add(b, Word::rotate_left(t, shift(i)));
        a = d;
        d = c;
        c = b;
        b = nb;
        i = i + 1;
    }
    (
        Word::wrapping_add(st.0, a),
        Word::wrapping_add(st.1, b),
        Word::wrapping_add(st.2, c),
        Word::wrapping_add(st.3, d),
    )
}

/// The sixteen little-endian words of block `k`, which starts at byte `off`.
fn block_words(p: &Vec<u8>, k: usize, off: usize) -> (r: Vec<u32>)
    requires
        off == 64 * k,
        off + 64 <= p@.len() <= usize::MAX,
    ensures
        r@ == md5_block_words(p@, k as int),
{
    let mut x: Vec<u32> = Vec::new();
    let mut j: usize = 0;
    while j < 16
        invariant
            j <= 16,
            off == 64 * k,
            off + 64 <= p@.len() <= usize::MAX,
            x@ =~= md5_block_words(p@, k as int).take(j as int),
        decreases 16 - j,
    {
        let w = <u32 as Word>::from_le_bytes(&p.as_slice()[off + 4 * j..off + 4 * j + 4]);
        x.push(w);
        j = j + 1;
    }
    x
}

/// Upper-case hexadecimal digit of a value below 16.
fn hex_digit(v: u8) -> (r: char)
    requires
        v < 16,
    ensures
        r == hex_char(v as int),
{
    if v == 0 { '0' } else if v == 1 { '1' } else if v == 2 { '2' } else if v == 3 { '3' }
    else if v == 4 { '4' } else if v == 5 { '5' } else if v == 6 { '6' } else if v == 7 { '7' }
    else if v == 8 { '8' } else if v == 9 { '9' } else if v == 10 { 'A' } else if v == 11 { 'B' }
    else if v == 12 { 'C' } else if v == 13 { 'D' } else if v == 14 { 'E' } else { 'F' }
}

/// Two upper-case hexadecimal digits for each byte.
fn to_hex(bytes: &Vec<u8>) -> (r: String)
    ensures
        r@ == hex_upper(bytes@),
{
    let mut s = String::new();
    let mut k: usize = 0;
    while k < bytes.len()
        invariant
            k <= bytes@.len(),
            s@ == hex_upper(bytes@.take(k as int)),
        decreases bytes@.len() - k,
    {
        let b = bytes[k];
        push_char(&mut s, hex_digit(b / 16));
        push_char(&mut s, hex_digit(b % 16));
        assert(bytes@.take(k + 1).drop_last() =~= bytes@.take(k as int));
        k = k + 1;
    }
    assert(bytes@.take(bytes@.len() as int) =~= bytes@);
    s
}

/// The MD5 message digest.
pub struct MD5;

impl MD5 {
    /// The padded message: `input`, the byte `0x80`, zero bytes up to 56
    /// modulo 64, and the bit length of `input` as 8 little-endian bytes.
    pub fn pad(input: &[u8]) -> (r: Vec<u8>)
        requires
            input@.len() + 72 <= usize::MAX,
        ensures
            r@ == md5_padded(input@),
    {
        let len = input.len();
        let bits = (len as u64).wrapping_mul(8);
        assert(bits == md5_bit_length(len as nat));
        let mut raw = vstd::slice::slice_to_vec(input);
        raw.push(0x80u8);
        let zeros = (119 - len % 64) % 64;
        let mut m: usize = 0;
        while m < zeros
            invariant
                m <= zeros,
                zeros == md5_zero_count(len as nat),
                len == input@.len(),
                len + 72 <= usize::MAX,
                raw@ =~= input@ + seq![0x80u8] + Seq::new(m as nat, |i: int| 0u8),
            decreases zeros - m,
        {
            raw.push(0u8);
            m = m + 1;
        }
        raw.push(bits as u8);
        raw.push((bits >> 8u64) as u8);
        raw.push((bits >> 16u64) as u8);
        raw.push((bits >> 24u64) as u8);
        raw.push((bits >> 32u64) as u8);
        raw.push((bits >> 40u64) as u8);
        raw.push((bits >> 48u64) as u8);
        raw.push((bits >> 56u64) as u8);
        assert(raw@ =~= md5_padded(input@));
        raw
    }

    /// The digest of `input` as 32 upper-case hexadecimal digits.
    pub fn from_bytes(input: &[u8]) -> (r: String)
        requires
            input@.len() + 72 <= usize::MAX,
        ensures
            r@ == md5_hex(input@),
    {
        let p = Self::pad(input);
        let table = elements_table();
        let mut st: Md5State = (0x67452301u32, 0xefcdab89u32, 0x98badcfeu32, 0x10325476u32);
        let n = p.len() / 64;
        let mut k: usize = 0;
        let mut off: usize = 0;
        while k < n
            invariant
                k <= n,
                n == p@.len() / 64,
                p@.len() <= usize::MAX,
                off == 64 * k,
                table@ == md5_table(),
                st == md5_fold(p@, k as nat),
            decreases n - k,
        {
            let x = block_words(&p, k, off);
            st = compress(st, &x, &table);
            k = k + 1;
            off = off + 64;
        }
        let mut digest: Vec<u8> = Vec::new();
        let mut w0 = Word::to_le_bytes(&st.0);
        let mut w1 = Word::to_le_bytes(&st.1);
        let mut w2 = Word::to_le_bytes(&st.2);
        let mut w3 = Word::to_le_bytes(&st.3);
        digest.append(&mut w0);
        digest.append(&mut w1);
        digest.append(&mut w2);
        digest.append(&mut w3);
        assert(digest@ =~= md5_digest(input@));
        to_hex(&digest)
    }

    /// The digest of the UTF-8 bytes of `input` as 32 upper-case hexadecimal digits.
    pub fn from(input: &str) -> (r: String)
        requires
            input.spec_bytes().len() + 72 <= usize::MAX,
        ensures
            r@ == md5_hex(input.spec_bytes()),
    {
        Self::from_bytes(input.as_bytes())
    }
}

} // verus!
