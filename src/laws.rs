use vstd::prelude::*;

use crate::md5_spec::{hex_upper, md5_digest, md5_hex, md5_padded, md5_zero_count};
use crate::rc5_lemmas::{
    lemma_block_bytes_injective,
    lemma_block_round_trip,
    lemma_chain_index,
    lemma_chain_len,
    lemma_encrypt_injective,
    lemma_from_blocks_block,
    lemma_from_blocks_len,
    lemma_from_to_blocks,
    lemma_mul_le,
    lemma_mul_succ,
    lemma_padded,
    lemma_read_block_local,
    lemma_to_from_blocks,
    lemma_unchain_chain,
    lemma_whole_blocks,
    lemma_xor_block_injective,
    lemma_xor_block_injective_right,
};
use crate::rc5_spec::{
    block_len,
    cbc_chain,
    cbc_decrypt,
    cbc_encrypt,
    chained_to,
    decrypt_block,
    ecb_decrypt,
    ecb_encrypt,
    encrypt_block,
    from_blocks,
    key_schedule,
    pad_len,
    padded,
    to_blocks,
    xor_block,
};
use crate::word::Word;

verus! {

/// Electronic-codebook round trip: for every key, number of rounds and word
/// width, decrypting the encryption of a text that is a whole number of
/// blocks gives the text back. The ciphertext is itself a whole number of
/// blocks, so its decryption is never refused.
pub proof fn ecb_round_trip<W: Word>(key: Seq<u8>, rounds: nat, p: Seq<u8>)
    requires
        p.len() % block_len::<W>() == 0,
    ensures
        ecb_encrypt(key_schedule::<W>(key, rounds), rounds, p).len() == p.len(),
        ecb_decrypt(
            key_schedule::<W>(key, rounds),
            rounds,
            ecb_encrypt(key_schedule::<W>(key, rounds), rounds, p),
        ) == p,
{
    let s = key_schedule::<W>(key, rounds);
    let xs = to_blocks::<W>(p);
    let ys = xs.map_values(|x: (W, W)| encrypt_block(s, rounds, x));
    W::lemma_byte_len();
    lemma_whole_blocks(p.len(), block_len::<W>());
    lemma_from_blocks_len(ys);
    lemma_to_from_blocks(ys);
    let zs = to_blocks::<W>(from_blocks(ys)).map_values(|y: (W, W)| decrypt_block(s, rounds, y));
    assert forall|k: int| 0 <= k < xs.len() implies #[trigger] zs[k] == xs[k] by {
        lemma_block_round_trip(s, rounds, xs[k]);
    }
    assert(zs =~= xs);
    lemma_from_to_blocks::<W>(p);
}

/// Cipher-block-chaining round trip: for every key, number of rounds, word
/// width and text of any length, decrypting the encryption with the padding
/// that the encryption recorded gives exactly the text back, its length
/// included. The ciphertext is a whole number of blocks and no shorter than
/// the padding, so its decryption is never refused.
pub proof fn cbc_round_trip<W: Word>(key: Seq<u8>, rounds: nat, p: Seq<u8>)
    ensures
        cbc_encrypt(key_schedule::<W>(key, rounds), rounds, p).len() % block_len::<W>() == 0,
        pad_len::<W>(p.len()) <= cbc_encrypt(key_schedule::<W>(key, rounds), rounds, p).len(),
        cbc_decrypt(
            key_schedule::<W>(key, rounds),
            rounds,
            cbc_encrypt(key_schedule::<W>(key, rounds), rounds, p),
            pad_len::<W>(p.len()),
        ) == p,
{
    let s = key_schedule::<W>(key, rounds);
    let pp = padded::<W>(p);
    let xs = to_blocks::<W>(pp);
    let cs = cbc_chain(s, rounds, xs);
    W::lemma_byte_len();
    lemma_padded::<W>(p);
    lemma_whole_blocks(pp.len(), block_len::<W>());
    lemma_chain_len(s, rounds, xs);
    lemma_from_blocks_len(cs);
    lemma_to_from_blocks(cs);
    lemma_unchain_chain(s, rounds, xs);
    lemma_from_to_blocks::<W>(pp);
}

/// Block `j` of a buffer: the bytes from `j * block_len` up to the next block.
pub open spec fn block_of<W: Word>(c: Seq<u8>, j: int) -> Seq<u8> {
    c.subrange(j * block_len::<W>(), (j + 1) * block_len::<W>())
}

/// `p` and `q` have the same length and agree on every byte outside block `i`.
pub open spec fn same_outside_block<W: Word>(p: Seq<u8>, q: Seq<u8>, i: int) -> bool {
    &&& p.len() == q.len()
    &&& forall|n: int|
        0 <= n < p.len() && !(i * block_len::<W>() <= n < (i + 1) * block_len::<W>()) ==> p[n]
            == q[n]
}

/// Two texts that differ only in block `i` have the same blocks but block `i`,
/// and different blocks at `i`.
proof fn lemma_blocks_differ_at<W: Word>(p: Seq<u8>, q: Seq<u8>, i: int)
    requires
        same_outside_block::<W>(p, q, i),
        p != q,
        p.len() % block_len::<W>() == 0,
    ensures
        to_blocks::<W>(p).len() == to_blocks::<W>(q).len(),
        forall|j: int|
            0 <= j < to_blocks::<W>(p).len() && j != i ==> #[trigger] to_blocks::<W>(p)[j]
                == to_blocks::<W>(q)[j],
        0 <= i < to_blocks::<W>(p).len() ==> to_blocks::<W>(p)[i] != to_blocks::<W>(q)[i],
{
    W::lemma_byte_len();
    let bl = block_len::<W>() as int;
    let n = p.len() / block_len::<W>();
    lemma_whole_blocks(p.len(), block_len::<W>());
    let xs = to_blocks::<W>(p);
    let ys = to_blocks::<W>(q);
    assert forall|j: int| 0 <= j < n && j != i implies #[trigger] xs[j] == ys[j] by {
        lemma_mul_le(0, j, bl);
        lemma_mul_le(j + 1, n as int, bl);
        lemma_mul_succ(j, bl);
        lemma_mul_succ(i, bl);
        if j < i {
            lemma_mul_le(j + 1, i, bl);
        } else {
            lemma_mul_le(i + 1, j, bl);
        }
        lemma_read_block_local::<W>(p, j);
        lemma_read_block_local::<W>(q, j);
        assert(p.subrange(j * bl, (j + 1) * bl) =~= q.subrange(j * bl, (j + 1) * bl));
    }
    if 0 <= i < n && xs[i] == ys[i] {
        assert(xs =~= ys);
        lemma_from_to_blocks::<W>(p);
        lemma_from_to_blocks::<W>(q);
    }
    if !(0 <= i < n) {
        assert forall|m: int| 0 <= m < p.len() implies p[m] == q[m] by {
            if i < 0 {
                lemma_mul_le(i + 1, 0, bl);
            } else {
                lemma_mul_le(n as int, i, bl);
            }
        }
        assert(p =~= q);
    }
}

/// Blocks `j` of the bytes of two block sequences are equal exactly when the
/// blocks are.
proof fn lemma_block_of_from_blocks<W: Word>(xs: Seq<(W, W)>, ys: Seq<(W, W)>, j: int)
    requires
        0 <= j < xs.len(),
        j < ys.len(),
    ensures
        block_of::<W>(from_blocks(xs), j) == block_of::<W>(from_blocks(ys), j) <==> xs[j]
            == ys[j],
{
    lemma_from_blocks_block(xs, j);
    lemma_from_blocks_block(ys, j);
    if block_of::<W>(from_blocks(xs), j) == block_of::<W>(from_blocks(ys), j) {
        lemma_block_bytes_injective(xs[j], ys[j]);
    }
}

/// Electronic-codebook blocks are independent: when two texts of whole
/// blocks differ only in block `i`, their ciphertexts differ in block `i` and
/// in no other block.
pub proof fn ecb_change_stays_in_block<W: Word>(
    key: Seq<u8>,
    rounds: nat,
    p: Seq<u8>,
    q: Seq<u8>,
    i: int,
)
    requires
        p.len() % block_len::<W>() == 0,
        0 <= i,
        i * block_len::<W>() < p.len(),
        same_outside_block::<W>(p, q, i),
        p != q,
    ensures
        ecb_encrypt(key_schedule::<W>(key, rounds), rounds, p).len() == p.len(),
        ecb_encrypt(key_schedule::<W>(key, rounds), rounds, q).len() == p.len(),
        forall|j: int|
            0 <= j < p.len() / block_len::<W>() && j != i ==> #[trigger] block_of::<W>(
                ecb_encrypt(key_schedule::<W>(key, rounds), rounds, p),
                j,
            ) == block_of::<W>(ecb_encrypt(key_schedule::<W>(key, rounds), rounds, q), j),
        block_of::<W>(ecb_encrypt(key_schedule::<W>(key, rounds), rounds, p), i) != block_of::<W>(
            ecb_encrypt(key_schedule::<W>(key, rounds), rounds, q),
            i,
        ),
{
    W::lemma_byte_len();
    let s = key_schedule::<W>(key, rounds);
    let bl = block_len::<W>() as int;
    let n = p.len() / block_len::<W>();
    lemma_whole_blocks(p.len(), block_len::<W>());
    if i >= n {
        lemma_mul_le(n as int, i, bl);
    }
    lemma_blocks_differ_at::<W>(p, q, i);
    let xs = to_blocks::<W>(p).map_values(|x: (W, W)| encrypt_block(s, rounds, x));
    let ys = to_blocks::<W>(q).map_values(|x: (W, W)| encrypt_block(s, rounds, x));
    lemma_from_blocks_len(xs);
    lemma_from_blocks_len(ys);
    assert forall|j: int| 0 <= j < n && j != i implies #[trigger] block_of::<W>(from_blocks(xs), j)
        == block_of::<W>(from_blocks(ys), j) by {
        lemma_block_of_from_blocks(xs, ys, j);
    }
    lemma_block_of_from_blocks(xs, ys, i);
    if xs[i] == ys[i] {
        lemma_encrypt_injective(s, rounds, to_blocks::<W>(p)[i], to_blocks::<W>(q)[i]);
    }
}

/// In the chaining of two block sequences that differ only at `i`, the
/// ciphertext blocks before `i` agree and those from `i` on all differ.
proof fn lemma_chain_divergence<W: Word>(
    s: Seq<W>,
    rounds: nat,
    xs: Seq<(W, W)>,
    ys: Seq<(W, W)>,
    i: int,
    j: int,
)
    requires
        xs.len() == ys.len(),
        0 <= i < xs.len(),
        0 <= j < xs.len(),
        forall|k: int| 0 <= k < xs.len() && k != i ==> #[trigger] xs[k] == ys[k],
        xs[i] != ys[i],
    ensures
        j < i ==> cbc_chain(s, rounds, xs)[j] == cbc_chain(s, rounds, ys)[j],
        j >= i ==> cbc_chain(s, rounds, xs)[j] != cbc_chain(s, rounds, ys)[j],
    decreases j,
{
    let cs = cbc_chain(s, rounds, xs);
    let ds = cbc_chain(s, rounds, ys);
    lemma_chain_len(s, rounds, xs);
    lemma_chain_len(s, rounds, ys);
    lemma_chain_index(s, rounds, xs, j);
    lemma_chain_index(s, rounds, ys, j);
    if j > 0 {
        lemma_chain_divergence(s, rounds, xs, ys, i, j - 1);
    }
    let a = xor_block(xs[j], chained_to(cs, j));
    let b = xor_block(ys[j], chained_to(ds, j));
    if j >= i && cs[j] == ds[j] {
        lemma_encrypt_injective(s, rounds, a, b);
        if j == i {
            lemma_xor_block_injective(xs[j], ys[j], chained_to(cs, j));
        } else {
            assert(xs[j] == ys[j]);
            lemma_xor_block_injective_right(xs[j], chained_to(cs, j), chained_to(ds, j));
        }
    }
}

/// Cipher-block chaining carries a change forward: when two texts of the
/// same length differ only in block `i`, their ciphertexts agree on every
/// block before `i` and differ in block `i` and in every block after it.
pub proof fn cbc_change_propagates<W: Word>(
    key: Seq<u8>,
    rounds: nat,
    p: Seq<u8>,
    q: Seq<u8>,
    i: int,
)
    requires
        0 <= i,
        i * block_len::<W>() < p.len(),
        same_outside_block::<W>(p, q, i),
        p != q,
    ensures
        cbc_encrypt(key_schedule::<W>(key, rounds), rounds, p).len() == cbc_encrypt(
            key_schedule::<W>(key, rounds),
            rounds,
            q,
        ).len(),
        forall|j: int|
            0 <= j < i ==> #[trigger] block_of::<W>(
                cbc_encrypt(key_schedule::<W>(key, rounds), rounds, p),
                j,
            ) == block_of::<W>(cbc_encrypt(key_schedule::<W>(key, rounds), rounds, q), j),
        forall|j: int|
            i <= j < cbc_encrypt(key_schedule::<W>(key, rounds), rounds, p).len()
                / block_len::<W>() ==> #[trigger] block_of::<W>(
                cbc_encrypt(key_schedule::<W>(key, rounds), rounds, p),
                j,
            ) != block_of::<W>(cbc_encrypt(key_schedule::<W>(key, rounds), rounds, q), j),
{
    W::lemma_byte_len();
    let s = key_schedule::<W>(key, rounds);
    let bl = block_len::<W>() as int;
    let pp = padded::<W>(p);
    let qq = padded::<W>(q);
    lemma_padded::<W>(p);
    lemma_padded::<W>(q);
    assert forall|m: int|
        0 <= m < pp.len() && !(i * bl <= m < (i + 1) * bl) implies pp[m] == qq[m] by {
        if m >= p.len() {
            assert(pp[m] == 0u8 && qq[m] == 0u8);
        }
    }
    assert(pp != qq) by {
        if pp == qq {
            assert(p == pp.take(p.len() as int));
        }
    }
    let n = pp.len() / block_len::<W>();
    lemma_whole_blocks(pp.len(), block_len::<W>());
    if i >= n {
        lemma_mul_le(n as int, i, bl);
    }
    lemma_blocks_differ_at::<W>(pp, qq, i);
    let xs = to_blocks::<W>(pp);
    let ys = to_blocks::<W>(qq);
    let cs = cbc_chain(s, rounds, xs);
    let ds = cbc_chain(s, rounds, ys);
    lemma_chain_len(s, rounds, xs);
    lemma_chain_len(s, rounds, ys);
    lemma_from_blocks_len(cs);
    lemma_from_blocks_len(ds);
    lemma_to_from_blocks(cs);
    assert(from_blocks(cs).len() / block_len::<W>() == n);
    assert forall|j: int| 0 <= j < i implies #[trigger] block_of::<W>(from_blocks(cs), j)
        == block_of::<W>(from_blocks(ds), j) by {
        lemma_chain_divergence(s, rounds, xs, ys, i, j);
        lemma_block_of_from_blocks(cs, ds, j);
    }
    assert forall|j: int| i <= j < n implies #[trigger] block_of::<W>(from_blocks(cs), j)
        != block_of::<W>(from_blocks(ds), j) by {
        lemma_chain_divergence(s, rounds, xs, ys, i, j);
        lemma_block_of_from_blocks(cs, ds, j);
    }
}

/// The padding brings every message to a whole number of 64-byte blocks: it
/// keeps the message as it is, follows it with the byte `0x80`, and adds
/// between 9 and 72 bytes in all.
pub proof fn md5_padding_shape(m: Seq<u8>)
    ensures
        md5_padded(m).len() % 64 == 0,
        m.len() + 9 <= md5_padded(m).len() <= m.len() + 72,
        md5_padded(m).take(m.len() as int) == m,
        md5_padded(m)[m.len() as int] == 0x80u8,
{
    assert(md5_padded(m).take(m.len() as int) =~= m);
}

/// A message whose length is already 448 bits modulo 512 still gets a whole
/// extra 512-bit block of padding.
pub proof fn md5_padding_boundary(m: Seq<u8>)
    requires
        m.len() % 64 == 56,
    ensures
        md5_zero_count(m.len()) == 63,
        md5_padded(m).len() == m.len() + 72,
{
}

proof fn lemma_hex_upper_len(b: Seq<u8>)
    ensures
        hex_upper(b).len() == 2 * b.len(),
    decreases b.len(),
{
    if b.len() > 0 {
        lemma_hex_upper_len(b.drop_last());
    }
}

/// The digest depends on the message alone: equal messages give equal
/// digests, each 32 hexadecimal digits long.
pub proof fn md5_deterministic(m1: Seq<u8>, m2: Seq<u8>)
    requires
        m1 == m2,
    ensures
        md5_hex(m1) == md5_hex(m2),
        md5_hex(m1).len() == 32,
{
    let d = md5_digest(m1);
    let p = md5_padded(m1);
    let st = crate::md5_spec::md5_fold(p, p.len() / 64);
    u32::lemma_le_of_word(st.0);
    u32::lemma_le_of_word(st.1);
    u32::lemma_le_of_word(st.2);
    u32::lemma_le_of_word(st.3);
    lemma_hex_upper_len(d);
}

} // verus!
