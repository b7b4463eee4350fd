use vstd::prelude::*;

use crate::word::Word;

verus! {

// Key schedule.

/// Number of bytes in one block of two words.
pub open spec fn block_len<W: Word>() -> nat {
    2 * W::byte_len()
}

/// Number of words that a key of `key_len` bytes packs into: one for each
/// word the bytes start, and at least one.
pub open spec fn key_word_count<W: Word>(key_len: nat) -> nat {
    if key_len == 0 {
        1
    } else if key_len % W::byte_len() == 0 {
        key_len / W::byte_len()
    } else {
        key_len / W::byte_len() + 1
    }
}

/// The key words once the last `k` bytes of `key` have been folded in, the
/// bytes being taken from the last one down: the word that holds byte `i` is
/// rotated left by 8 bits and the byte added.
pub open spec fn pack_key<W: Word>(key: Seq<u8>, k: nat) -> Seq<W>
    decreases k,
{
    if k == 0 || k > key.len() {
        Seq::new(key_word_count::<W>(key.len()), |i: int| W::zero_spec())
    } else {
        let prev = pack_key::<W>(key, (k - 1) as nat);
        let i = key.len() - k;
        let w = i / W::byte_len() as int;
        prev.update(w, prev[w].rotl_spec(8).add_spec(W::from_byte_spec(key[i])))
    }
}

/// The key as words.
pub open spec fn key_words<W: Word>(key: Seq<u8>) -> Seq<W> {
    pack_key::<W>(key, key.len())
}

/// Entry `i` of the schedule before mixing: P plus `i` times Q.
pub open spec fn magic_entry<W: Word>(i: nat) -> W
    decreases i,
{
    if i == 0 {
        W::p_spec()
    } else {
        magic_entry::<W>((i - 1) as nat).add_spec(W::q_spec())
    }
}

/// The schedule of `t` words before mixing.
pub open spec fn schedule_seed<W: Word>(t: nat) -> Seq<W> {
    Seq::new(t, |i: int| magic_entry::<W>(i as nat))
}

/// The state of the mixing loop: schedule, key words, the two accumulators
/// and the two indices.
pub struct MixState<W> {
    pub s: Seq<W>,
    pub l: Seq<W>,
    pub a: W,
    pub b: W,
    pub i: nat,
    pub j: nat,
}

/// One step of the mixing loop.
pub open spec fn mix_step<W: Word>(st: MixState<W>) -> MixState<W> {
    let a = st.s[st.i as int].add_spec(st.a).add_spec(st.b).rotl_spec(3);
    let b = st.l[st.j as int].add_spec(a).add_spec(st.b).rotl_spec(a.add_spec(st.b).amount_spec());
    MixState {
        s: st.s.update(st.i as int, a),
        l: st.l.update(st.j as int, b),
        a: a,
        b: b,
        i: if st.i + 1 == st.s.len() { 0 } else { st.i + 1 },
        j: if st.j + 1 == st.l.len() { 0 } else { st.j + 1 },
    }
}

/// The state of the mixing loop after `k` steps.
pub open spec fn mix<W: Word>(s: Seq<W>, l: Seq<W>, k: nat) -> MixState<W>
    decreases k,
{
    if k == 0 {
        MixState { s: s, l: l, a: W::zero_spec(), b: W::zero_spec(), i: 0, j: 0 }
    } else {
        mix_step(mix(s, l, (k - 1) as nat))
    }
}

/// The round-key schedule that `key` gives for `rounds` rounds: `2 * (rounds + 1)`
/// words, mixed with the key words for three times the longer of the two.
pub open spec fn key_schedule<W: Word>(key: Seq<u8>, rounds: nat) -> Seq<W> {
    let t = 2 * (rounds + 1);
    let l = key_words::<W>(key);
    let n = if t >= l.len() { t } else { l.len() };
    mix(schedule_seed::<W>(t), l, 3 * n).s
}

// One block.

/// A block after the key whitening and the first `n` rounds of encryption.
pub open spec fn encrypt_rounds<W: Word>(s: Seq<W>, x: (W, W), n: nat) -> (W, W)
    decreases n,
{
    if n == 0 {
        (x.0.add_spec(s[0]), x.1.add_spec(s[1]))
    } else {
        let y = encrypt_rounds(s, x, (n - 1) as nat);
        let a = y.0.xor_spec(y.1).rotl_spec(y.1.amount_spec()).add_spec(s[2 * n as int]);
        let b = y.1.xor_spec(a).rotl_spec(a.amount_spec()).add_spec(s[2 * n as int + 1]);
        (a, b)
    }
}

/// A block undone through rounds `n` down to 1, then the key whitening.
pub open spec fn decrypt_rounds<W: Word>(s: Seq<W>, y: (W, W), n: nat) -> (W, W)
    decreases n,
{
    if n == 0 {
        (y.0.sub_spec(s[0]), y.1.sub_spec(s[1]))
    } else {
        let b = y.1.sub_spec(s[2 * n as int + 1]).rotr_spec(y.0.amount_spec()).xor_spec(y.0);
        let a = y.0.sub_spec(s[2 * n as int]).rotr_spec(b.amount_spec()).xor_spec(b);
        decrypt_rounds(s, (a, b), (n - 1) as nat)
    }
}

pub open spec fn encrypt_block<W: Word>(s: Seq<W>, rounds: nat, x: (W, W)) -> (W, W) {
    encrypt_rounds(s, x, rounds)
}

pub open spec fn decrypt_block<W: Word>(s: Seq<W>, rounds: nat, y: (W, W)) -> (W, W) {
    decrypt_rounds(s, y, rounds)
}

pub open spec fn xor_block<W: Word>(x: (W, W), y: (W, W)) -> (W, W) {
    (x.0.xor_spec(y.0), x.1.xor_spec(y.1))
}

pub open spec fn zero_block<W: Word>() -> (W, W) {
    (W::zero_spec(), W::zero_spec())
}

// Bytes and blocks.

/// Block `k` of `p`, read as two little-endian words.
pub open spec fn read_block<W: Word>(p: Seq<u8>, k: int) -> (W, W) {
    let u = W::byte_len() as int;
    let off = k * (2 * u);
    (W::from_le_spec(p.subrange(off, off + u)), W::from_le_spec(p.subrange(off + u, off + 2 * u)))
}

/// The whole blocks of `p`.
pub open spec fn to_blocks<W: Word>(p: Seq<u8>) -> Seq<(W, W)> {
    Seq::new(p.len() / block_len::<W>(), |k: int| read_block::<W>(p, k))
}

/// The bytes of one block.
pub open spec fn block_bytes<W: Word>(x: (W, W)) -> Seq<u8> {
    x.0.to_le_spec() + x.1.to_le_spec()
}

/// The bytes of a sequence of blocks, in order.
pub open spec fn from_blocks<W: Word>(xs: Seq<(W, W)>) -> Seq<u8>
    decreases xs.len(),
{
    if xs.len() == 0 {
        Seq::empty()
    } else {
        from_blocks(xs.drop_last()) + block_bytes(xs.last())
    }
}

// Chaining modes.

/// Electronic-codebook encryption: each block encrypted on its own.
pub open spec fn ecb_encrypt<W: Word>(s: Seq<W>, rounds: nat, p: Seq<u8>) -> Seq<u8> {
    from_blocks(to_blocks::<W>(p).map_values(|x: (W, W)| encrypt_block(s, rounds, x)))
}

/// Electronic-codebook decryption: each block decrypted on its own.
pub open spec fn ecb_decrypt<W: Word>(s: Seq<W>, rounds: nat, c: Seq<u8>) -> Seq<u8> {
    from_blocks(to_blocks::<W>(c).map_values(|y: (W, W)| decrypt_block(s, rounds, y)))
}

/// Cipher-block chaining over blocks: each block is XORed with the previous
/// ciphertext block (the zero block for the first one), then encrypted.
pub open spec fn cbc_chain<W: Word>(s: Seq<W>, rounds: nat, xs: Seq<(W, W)>) -> Seq<(W, W)>
    decreases xs.len(),
{
    if xs.len() == 0 {
        Seq::empty()
    } else {
        let prev = cbc_chain(s, rounds, xs.drop_last());
        let iv = if prev.len() == 0 { zero_block::<W>() } else { prev.last() };
        prev.push(encrypt_block(s, rounds, xor_block(xs.last(), iv)))
    }
}

/// The ciphertext block that block `k` is chained to.
pub open spec fn chained_to<W: Word>(cs: Seq<(W, W)>, k: int) -> (W, W) {
    if k == 0 {
        zero_block::<W>()
    } else {
        cs[k - 1]
    }
}

/// Undoing the chaining: each block decrypted, then XORed with the previous
/// ciphertext block.
pub open spec fn cbc_unchain<W: Word>(s: Seq<W>, rounds: nat, cs: Seq<(W, W)>) -> Seq<(W, W)> {
    Seq::new(cs.len(), |k: int| xor_block(decrypt_block(s, rounds, cs[k]), chained_to(cs, k)))
}

/// Number of zero bytes that bring `len` up to a whole number of blocks.
pub open spec fn pad_len<W: Word>(len: nat) -> nat {
    if len % block_len::<W>() == 0 {
        0
    } else {
        (block_len::<W>() - len % block_len::<W>()) as nat
    }
}

/// `p` followed by its zero padding.
pub open spec fn padded<W: Word>(p: Seq<u8>) -> Seq<u8> {
    p + Seq::new(pad_len::<W>(p.len()), |i: int| 0u8)
}

/// Cipher-block-chaining encryption of `p`, zero-padded to whole blocks.
pub open spec fn cbc_encrypt<W: Word>(s: Seq<W>, rounds: nat, p: Seq<u8>) -> Seq<u8> {
    from_blocks(cbc_chain(s, rounds, to_blocks::<W>(padded::<W>(p))))
}

/// Cipher-block-chaining decryption of `c`, with the last `pad` bytes removed.
pub open spec fn cbc_decrypt<W: Word>(s: Seq<W>, rounds: nat, c: Seq<u8>, pad: nat) -> Seq<u8> {
    from_blocks(cbc_unchain(s, rounds, to_blocks::<W>(c))).take(c.len() - pad)
}

} // verus!
