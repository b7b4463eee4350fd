use vstd::prelude::*;

use crate::word::Word;

verus! {

// Padding.

/// Number of zero bytes between the `0x80` marker and the length field, so
/// that the padded length is 56 modulo 64.
pub open spec fn md5_zero_count(len: nat) -> nat {
    ((119 - len % 64) % 64) as nat
}

/// The message length in bits, modulo 2^64.
pub open spec fn md5_bit_length(len: nat) -> u64 {
    ((len * 8) % 0x1_0000_0000_0000_0000) as u64
}

/// The little-endian bytes of a 64-bit value.
pub open spec fn le_u64(v: u64) -> Seq<u8> {
    seq![
        v as u8,
        (v >> 8u64) as u8,
        (v >> 16u64) as u8,
        (v >> 24u64) as u8,
        (v >> 32u64) as u8,
        (v >> 40u64) as u8,
        (v >> 48u64) as u8,
        (v >> 56u64) as u8,
    ]
}

/// The padded message: the message, a `1` bit, `0` bits up to 448 modulo
/// 512 bits, then the message's bit length as a 64-bit little-endian field.
pub open spec fn md5_padded(m: Seq<u8>) -> Seq<u8> {
    m + seq![0x80u8] + Seq::new(md5_zero_count(m.len()), |i: int| 0u8) + le_u64(
        md5_bit_length(m.len()),
    )
}

// Compression.

/// The 64 round constants, entry `i` being the integer part of
/// `2^32 * |sin(i + 1)|`.
pub open spec fn md5_table() -> Seq<u32> {
    seq![
        0xd76aa478u32, 0xe8c7b756, 0x242070db, 0xc1bdceee, 0xf57c0faf, 0x4787c62a, 0xa8304613, 0xfd469501,
        0x698098d8, 0x8b44f7af, 0xffff5bb1, 0x895cd7be, 0x6b901122, 0xfd987193, 0xa679438e, 0x49b40821,
        0xf61e2562, 0xc040b340, 0x265e5a51, 0xe9b6c7aa, 0xd62f105d, 0x02441453, 0xd8a1e681, 0xe7d3fbc8,
        0x21e1cde6, 0xc33707d6, 0xf4d50d87, 0x455a14ed, 0xa9e3e905, 0xfcefa3f8, 0x676f02d9, 0x8d2a4c8a,
        0xfffa3942, 0x8771f681, 0x6d9d6122, 0xfde5380c, 0xa4beea44, 0x4bdecfa9, 0xf6bb4b60, 0xbebfbc70,
        0x289b7ec6, 0xeaa127fa, 0xd4ef3085, 0x04881d05, 0xd9d4d039, 0xe6db99e5, 0x1fa27cf8, 0xc4ac5665,
        0xf4292244, 0x432aff97, 0xab9423a7, 0xfc93a039, 0x655b59c3, 0x8f0ccc92, 0xffeff47d, 0x85845dd1,
        0x6fa87e4f, 0xfe2ce6e0, 0xa3014314, 0x4e0811a1, 0xf7537e82, 0xbd3af235, 0x2ad7d2bb, 0xeb86d391,
    ]
}

/// The nonlinear function of operation `i`: F, G, H or I for the four rounds.
pub open spec fn md5_mix(i: int, b: u32, c: u32, d: u32) -> u32 {
    if i < 16 {
        (b & c) | (!b & d)
    } else if i < 32 {
        (b & d) | (c & !d)
    } else if i < 48 {
        b ^ c ^ d
    } else {
        c ^ (b | !d)
    }
}

/// The message word that operation `i` adds.
pub open spec fn md5_word_index(i: int) -> int {
    if i < 16 {
        i
    } else if i < 32 {
        (5 * i + 1) % 16
    } else if i < 48 {
        (3 * i + 5) % 16
    } else {
        (7 * i) % 16
    }
}

/// The rotation of operation `i`.
pub open spec fn md5_shift(i: int) -> u32 {
    let r = i % 4;
    if i < 16 {
        if r == 0 { 7 } else if r == 1 { 12 } else if r == 2 { 17 } else { 22 }
    } else if i < 32 {
        if r == 0 { 5 } else if r == 1 { 9 } else if r == 2 { 14 } else { 20 }
    } else if i < 48 {
        if r == 0 { 4 } else if r == 1 { 11 } else if r == 2 { 16 } else { 23 }
    } else {
        if r == 0 { 6 } else if r == 1 { 10 } else if r == 2 { 15 } else { 21 }
    }
}

/// The four accumulators A, B, C, D.
pub type Md5State = (u32, u32, u32, u32);

pub open spec fn md5_initial() -> Md5State {
    (0x67452301u32, 0xefcdab89u32, 0x98badcfeu32, 0x10325476u32)
}

/// The accumulators after the first `n` operations on the message words `x`,
/// held so that the one to be replaced next comes first: each operation adds
/// into the first accumulator and moves it to second place.
pub open spec fn md5_ops(x: Seq<u32>, st: Md5State, n: nat) -> Md5State
    decreases n,
{
    if n == 0 {
        st
    } else {
        let (a, b, c, d) = md5_ops(x, st, (n - 1) as nat);
        let i = n - 1;
        let t = a.add_spec(md5_mix(i, b, c, d)).add_spec(x[md5_word_index(i)]).add_spec(
            md5_table()[i],
        );
        (d, b.add_spec(t.rotl_spec(md5_shift(i))), b, c)
    }
}

/// One block: the 64 operations, then the accumulators before the block
/// added back.
pub open spec fn md5_compress(st: Md5State, x: Seq<u32>) -> Md5State {
    let r = md5_ops(x, st, 64);
    (st.0.add_spec(r.0), st.1.add_spec(r.1), st.2.add_spec(r.2), st.3.add_spec(r.3))
}

/// The sixteen little-endian message words of block `k` of `p`.
pub open spec fn md5_block_words(p: Seq<u8>, k: int) -> Seq<u32> {
    Seq::new(16, |j: int| u32::from_le_spec(p.subrange(64 * k + 4 * j, 64 * k + 4 * j + 4)))
}

/// The accumulators after the first `n` blocks of `p`.
pub open spec fn md5_fold(p: Seq<u8>, n: nat) -> Md5State
    decreases n,
{
    if n == 0 {
        md5_initial()
    } else {
        md5_compress(md5_fold(p, (n - 1) as nat), md5_block_words(p, n - 1))
    }
}

/// The 16-byte digest of `m`: the final accumulators, each in little-endian order.
pub open spec fn md5_digest(m: Seq<u8>) -> Seq<u8> {
    let p = md5_padded(m);
    let st = md5_fold(p, p.len() / 64);
    st.0.to_le_spec() + st.1.to_le_spec() + st.2.to_le_spec() + st.3.to_le_spec()
}

// Rendering.

/// The upper-case hexadecimal digit of a value below 16.
pub open spec fn hex_char(v: int) -> char {
    seq!['0', '1', '2', '3', '4', '5', '6', '7', '8', '9', 'A', 'B', 'C', 'D', 'E', 'F'][v]
}

/// Two upper-case hexadecimal digits for each byte, high digit first.
pub open spec fn hex_upper(bytes: Seq<u8>) -> Seq<char>
    decreases bytes.len(),
{
    if bytes.len() == 0 {
        Seq::empty()
    } else {
        let b = bytes.last();
        hex_upper(bytes.drop_last()) + seq![hex_char(b as int / 16), hex_char(b as int % 16)]
    }
}

/// The digest of `m` as 32 upper-case hexadecimal digits.
pub open spec fn md5_hex(m: Seq<u8>) -> Seq<char> {
    hex_upper(md5_digest(m))
}

} // verus!
