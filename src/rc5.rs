use std::marker::PhantomData;
use vstd::prelude::*;

use crate::rc5_lemmas::{
    lemma_chain_len,
    lemma_from_blocks_len,
    lemma_from_blocks_take,
    lemma_key_word_count_pos,
    lemma_key_word_index,
    lemma_mul_le,
    lemma_mul_succ,
    lemma_pack_key_len,
    lemma_pad_len,
    lemma_whole_blocks,
};
use crate::rc5_spec::{
    block_bytes,
    block_len,
    cbc_chain,
    cbc_decrypt,
    cbc_encrypt,
    cbc_unchain,
    chained_to,
    decrypt_block,
    decrypt_rounds,
    ecb_decrypt,
    ecb_encrypt,
    encrypt_block,
    encrypt_rounds,
    from_blocks,
    key_schedule,
    key_word_count,
    key_words,
    mix,
    pack_key,
    pad_len,
    padded,
    read_block,
    schedule_seed,
    to_blocks,
    MixState,
};
use crate::word::Word;

verus! {

/// Why a buffer could not be encrypted or decrypted.
#[derive(Debug, Clone, Copy, PartialEq, Eq)]
pub enum CipherError {
    /// The buffer is not a whole number of blocks.
    InvalidBlockLength,
    /// The recorded padding is longer than the decrypted buffer.
    PadLengthUnderflow,
}

/// The RC5 block cipher over words of type `W`, with its two chaining modes.
pub struct RC5<W: Word> {
    word: PhantomData<W>,
    rounds: usize,
    octets: usize,
    extended_part: usize,
}

/// Reads block `k`, which starts at byte `off`, as two little-endian words.
fn read_block_at<W: Word>(buf: &[u8], k: usize, off: usize) -> (r: (W, W))
    requires
        off == k * block_len::<W>(),
        off + block_len::<W>() <= buf@.len() <= usize::MAX,
    ensures
        r == read_block::<W>(buf@, k as int),
{
    proof {
        W::lemma_byte_len();
    }
    let u = W::byte_count();
    let a = W::from_le_bytes(&buf[off..off + u]);
    let b = W::from_le_bytes(&buf[off + u..off + 2 * u]);
    (a, b)
}

/// Appends the bytes of a block.
fn push_block<W: Word>(out: &mut Vec<u8>, x: (W, W))
    ensures
        final(out)@ == old(out)@ + block_bytes(x),
{
    let mut a = x.0.to_le_bytes();
    let mut b = x.1.to_le_bytes();
    out.append(&mut a);
    out.append(&mut b);
    assert(final(out)@ =~= old(out)@ + block_bytes(x));
}

/// Block `k` lies inside a buffer of `n` whole blocks.
proof fn lemma_block_fits(k: int, n: int, bl: int, len: int)
    requires
        0 <= k < n,
        0 < bl,
        n * bl <= len,
    ensures
        0 <= k * bl,
        k * bl + bl <= len,
{
    lemma_mul_le(0, k, bl);
    lemma_mul_le(k + 1, n, bl);
    lemma_mul_succ(k, bl);
}

impl<W: Word> RC5<W> {
    /// Number of rounds.
    pub closed spec fn rounds_spec(&self) -> nat {
        self.rounds as nat
    }

    /// The key length that the cipher was configured with, in bytes.
    pub closed spec fn octets_spec(&self) -> nat {
        self.octets as nat
    }

    /// Number of zero bytes that the last chained encryption added.
    pub closed spec fn pad_spec(&self) -> nat {
        self.extended_part as nat
    }

    /// The key schedule of `2 * (rounds + 1)` words can be indexed.
    pub closed spec fn wf(&self) -> bool {
        2 * (self.rounds + 1) <= usize::MAX
    }

    pub fn new(rounds: usize, octets: usize) -> (r: Self)
        requires
            2 * (rounds + 1) <= usize::MAX,
        ensures
            r.wf(),
            r.rounds_spec() == rounds,
            r.octets_spec() == octets,
            r.pad_spec() == 0,
    {
        RC5 { word: PhantomData, rounds, octets, extended_part: 0 }
    }

    /// Packs the key bytes into words, from the last byte to the first.
    fn key_to_words(&self, key: &[u8]) -> (r: Vec<W>)
        ensures
            r@ == key_words::<W>(key@),
    {
        proof {
            W::lemma_byte_len();
        }
        let u = W::byte_count();
        let len = key.len();
        assert(len / u < usize::MAX) by (nonlinear_arith)
            requires
                u >= 2,
                len <= usize::MAX,
        ;
        let count: usize = if len == 0 {
            1
        } else if len % u == 0 {
            len / u
        } else {
            len / u + 1
        };
        let mut words: Vec<W> = Vec::new();
        let mut m: usize = 0;
        while m < count
            invariant
                m <= count,
                count == key_word_count::<W>(key@.len()),
                words@ =~= Seq::new(m as nat, |i: int| W::zero_spec()),
            decreases count - m,
        {
            words.push(W::zero());
            m = m + 1;
        }
        let mut k: usize = 0;
        while k < len
            invariant
                k <= len,
                len == key@.len(),
                u == W::byte_len(),
                u >= 2,
                words@ == pack_key::<W>(key@, k as nat),
            decreases len - k,
        {
            let i = len - 1 - k;
            let w = i / u;
            proof {
                lemma_pack_key_len::<W>(key@, k as nat);
                lemma_key_word_index::<W>(i as nat, len as nat);
            }
            let v = words[w].rotate_left(8).wrapping_add(W::from_byte(key[i]));
            words.set(w, v);
            k = k + 1;
        }
        words
    }

    /// Derives the round-key schedule from the key.
    fn key_expand(&self, key: &[u8]) -> (r: Vec<W>)
        requires
            self.wf(),
        ensures
            r@ == key_schedule::<W>(key@, self.rounds_spec()),
            r@.len() == 2 * (self.rounds_spec() + 1),
    {
        let mut l = self.key_to_words(key);
        proof {
            lemma_pack_key_len::<W>(key@, key@.len());
            lemma_key_word_count_pos::<W>(key@.len());
        }
        let c = l.len();
        let t = 2 * (self.rounds + 1);
        let mut s: Vec<W> = Vec::new();
        s.push(W::magic_p());
        let mut m: usize = 1;
        while m < t
            invariant
                1 <= m <= t,
                s@ =~= schedule_seed::<W>(m as nat),
            decreases t - m,
        {
            let v = s[m - 1].wrapping_add(W::magic_q());
            s.push(v);
            m = m + 1;
        }
        let ghost s0 = s@;
        let ghost l0 = l@;
        let n = if t >= c {
            t
        } else {
            c
        };
        let mut a = W::zero();
        let mut b = W::zero();
        let mut i: usize = 0;
        let mut j: usize = 0;
        let ghost mut steps: nat = 0;
        let mut pass: usize = 0;
        while pass < 3
            invariant
                pass <= 3,
                steps == pass * n,
                s0.len() == t,
                l0.len() == c,
                c > 0,
                s@.len() == t,
                l@.len() == c,
                i < t,
                j < c,
                mix::<W>(s0, l0, steps) == (MixState { s: s@, l: l@, a: a, b: b, i: i as nat, j: j as nat }),
            decreases 3 - pass,
        {
            let mut m: usize = 0;
            while m < n
                invariant
                    m <= n,
                    steps == pass * n + m,
                    s0.len() == t,
                    l0.len() == c,
                    s@.len() == t,
                    l@.len() == c,
                    i < t,
                    j < c,
                    mix::<W>(s0, l0, steps) == (MixState { s: s@, l: l@, a: a, b: b, i: i as nat, j: j as nat }),
                decreases n - m,
            {
                let x = s[i].wrapping_add(a).wrapping_add(b).rotate_left(3);
                s.set(i, x);
                let y = l[j].wrapping_add(x).wrapping_add(b).rotate_left(
                    x.wrapping_add(b).rotation_amount(),
                );
                l.set(j, y);
                a = x;
                b = y;
                i = if i + 1 == t {
                    0
                } else {
                    i + 1
                };
                j = if j + 1 == c {
                    0
                } else {
                    j + 1
                };
                m = m + 1;
                proof {
                    steps = steps + 1;
                }
            }
            proof {
                lemma_mul_succ(pass as int, n as int);
            }
            pass = pass + 1;
        }
        s
    }

    /// Encrypts one block under the schedule `s`.
    fn encrypt_block(&self, pt: (W, W), s: &Vec<W>) -> (r: (W, W))
        requires
            self.wf(),
            s@.len() == 2 * (self.rounds_spec() + 1),
        ensures
            r == encrypt_block(s@, self.rounds_spec(), pt),
    {
        let mut a = pt.0.wrapping_add(s[0]);
        let mut b = pt.1.wrapping_add(s[1]);
        let mut i: usize = 1;
        while i <= self.rounds
            invariant
                1 <= i <= self.rounds + 1,
                self.wf(),
                s@.len() == 2 * (self.rounds + 1),
                (a, b) == encrypt_rounds(s@, pt, (i - 1) as nat),
            decreases self.rounds + 1 - i,
        {
            a = a.xor(b).rotate_left(b.rotation_amount()).wrapping_add(s[2 * i]);
            b = b.xor(a).rotate_left(a.rotation_amount()).wrapping_add(s[2 * i + 1]);
            i = i + 1;
        }
        (a, b)
    }

    /// Decrypts one block under the schedule `s`.
    fn decrypt_block(&self, ct: (W, W), s: &Vec<W>) -> (r: (W, W))
        requires
            self.wf(),
            s@.len() == 2 * (self.rounds_spec() + 1),
        ensures
            r == decrypt_block(s@, self.rounds_spec(), ct),
    {
        let mut a = ct.0;
        let mut b = ct.1;
        let mut i: usize = self.rounds;
        while i > 0
            invariant
                i <= self.rounds,
                self.wf(),
                s@.len() == 2 * (self.rounds + 1),
                decrypt_rounds(s@, (a, b), i as nat) == decrypt_rounds(s@, ct, self.rounds as nat),
            decreases i,
        {
            b = b.wrapping_sub(s[2 * i + 1]).rotate_right(a.rotation_amount()).xor(a);
            a = a.wrapping_sub(s[2 * i]).rotate_right(b.rotation_amount()).xor(b);
            i = i - 1;
        }
        (a.wrapping_sub(s[0]), b.wrapping_sub(s[1]))
    }
}


impl<W: Word> RC5<W> {
    /// Electronic-codebook encryption: each block of `plain` is encrypted on
    /// its own under the schedule derived from `key`. A buffer that is not a
    /// whole number of blocks is refused.
    pub fn encrypt(&self, plain: &[u8], key: &[u8]) -> (r: Result<Vec<u8>, CipherError>)
        requires
            self.wf(),
        ensures
            match r {
                Ok(c) => plain@.len() % block_len::<W>() == 0 && c@ == ecb_encrypt(
                    key_schedule::<W>(key@, self.rounds_spec()),
                    self.rounds_spec(),
                    plain@,
                ),
                Err(e) => plain@.len() % block_len::<W>() != 0 && e == CipherError::InvalidBlockLength,
            },
    {
        proof {
            W::lemma_byte_len();
        }
        let bs = 2 * W::byte_count();
        if plain.len() % bs != 0 {
            return Err(CipherError::InvalidBlockLength);
        }
        let s = self.key_expand(key);
        let n = plain.len() / bs;
        let ghost sched = s@;
        let ghost rounds = self.rounds_spec();
        let ghost ys = to_blocks::<W>(plain@).map_values(|x: (W, W)| encrypt_block(sched, rounds, x));
        proof {
            lemma_whole_blocks(plain@.len(), bs as nat);
        }
        let mut out: Vec<u8> = Vec::new();
        let mut k: usize = 0;
        let mut off: usize = 0;
        while k < n
            invariant
                self.wf(),
                s@ == sched,
                sched.len() == 2 * (rounds + 1),
                rounds == self.rounds_spec(),
                bs == block_len::<W>(),
                bs > 0,
                n == plain@.len() / (bs as nat),
                n * bs == plain@.len(),
                plain@.len() <= usize::MAX,
                ys.len() == n,
                k <= n,
                off == k * bs,
                ys == to_blocks::<W>(plain@).map_values(|x: (W, W)| encrypt_block(sched, rounds, x)),
                out@ == from_blocks(ys.take(k as int)),
            decreases n - k,
        {
            proof {
                lemma_block_fits(k as int, n as int, bs as int, plain@.len() as int);
                lemma_from_blocks_take(ys, k as int);
                lemma_mul_succ(k as int, bs as int);
            }
            let x = read_block_at::<W>(plain, k, off);
            let y = self.encrypt_block(x, &s);
            push_block(&mut out, y);
            k = k + 1;
            off = off + bs;
        }
        assert(ys.take(n as int) =~= ys);
        Ok(out)
    }

    /// Electronic-codebook decryption: each block of `ciphertext` is decrypted
    /// on its own under the schedule derived from `key`. A buffer that is not a
    /// whole number of blocks is refused.
    pub fn decrypt(&self, ciphertext: &[u8], key: &[u8]) -> (r: Result<Vec<u8>, CipherError>)
        requires
            self.wf(),
        ensures
            match r {
                Ok(p) => ciphertext@.len() % block_len::<W>() == 0 && p@ == ecb_decrypt(
                    key_schedule::<W>(key@, self.rounds_spec()),
                    self.rounds_spec(),
                    ciphertext@,
                ),
                Err(e) => ciphertext@.len() % block_len::<W>() != 0 && e
                    == CipherError::InvalidBlockLength,
            },
    {
        proof {
            W::lemma_byte_len();
        }
        let bs = 2 * W::byte_count();
        if ciphertext.len() % bs != 0 {
            return Err(CipherError::InvalidBlockLength);
        }
        let s = self.key_expand(key);
        let n = ciphertext.len() / bs;
        let ghost sched = s@;
        let ghost rounds = self.rounds_spec();
        let ghost ys = to_blocks::<W>(ciphertext@).map_values(
            |y: (W, W)| decrypt_block(sched, rounds, y),
        );
        proof {
            lemma_whole_blocks(ciphertext@.len(), bs as nat);
        }
        let mut out: Vec<u8> = Vec::new();
        let mut k: usize = 0;
        let mut off: usize = 0;
        while k < n
            invariant
                self.wf(),
                s@ == sched,
                sched.len() == 2 * (rounds + 1),
                rounds == self.rounds_spec(),
                bs == block_len::<W>(),
                bs > 0,
                n == ciphertext@.len() / (bs as nat),
                n * bs == ciphertext@.len(),
                ciphertext@.len() <= usize::MAX,
                ys.len() == n,
                k <= n,
                off == k * bs,
                ys == to_blocks::<W>(ciphertext@).map_values(
                    |y: (W, W)| decrypt_block(sched, rounds, y),
                ),
                out@ == from_blocks(ys.take(k as int)),
            decreases n - k,
        {
            proof {
                lemma_block_fits(k as int, n as int, bs as int, ciphertext@.len() as int);
                lemma_from_blocks_take(ys, k as int);
                lemma_mul_succ(k as int, bs as int);
            }
            let y = read_block_at::<W>(ciphertext, k, off);
            let x = self.decrypt_block(y, &s);
            push_block(&mut out, x);
            k = k + 1;
            off = off + bs;
        }
        assert(ys.take(n as int) =~= ys);
        Ok(out)
    }
}


impl<W: Word> RC5<W> {
    /// Cipher-block-chaining encryption: `plain` is padded with zero bytes to
    /// a whole number of blocks, and each block is XORed with the previous
    /// ciphertext block (the zero block for the first) before it is
    /// encrypted. The number of padding bytes is recorded for `decrypt_cbc`.
    pub fn encrypt_cbc(&mut self, plain: &[u8], key: &[u8]) -> (r: Vec<u8>)
        requires
            old(self).wf(),
            plain@.len() + block_len::<W>() <= usize::MAX,
        ensures
            r@ == cbc_encrypt(
                key_schedule::<W>(key@, old(self).rounds_spec()),
                old(self).rounds_spec(),
                plain@,
            ),
            final(self).wf(),
            final(self).rounds_spec() == old(self).rounds_spec(),
            final(self).octets_spec() == old(self).octets_spec(),
            final(self).pad_spec() == pad_len::<W>(plain@.len()),
    {
        proof {
            W::lemma_byte_len();
            lemma_pad_len::<W>(plain@.len());
        }
        let bs = 2 * W::byte_count();
        let len = plain.len();
        let pad = if len % bs == 0 {
            0
        } else {
            bs - len % bs
        };
        self.extended_part = pad;
        let mut buf = vstd::slice::slice_to_vec(plain);
        let mut m: usize = 0;
        while m < pad
            invariant
                m <= pad,
                len == plain@.len(),
                pad == pad_len::<W>(plain@.len()),
                len + pad <= usize::MAX,
                buf@ =~= plain@ + Seq::new(m as nat, |i: int| 0u8),
            decreases pad - m,
        {
            buf.push(0);
            m = m + 1;
        }
        assert(buf@ =~= padded::<W>(plain@));
        let s = self.key_expand(key);
        let n = buf.len() / bs;
        let ghost sched = s@;
        let ghost rounds = self.rounds_spec();
        let ghost xs = to_blocks::<W>(buf@);
        proof {
            lemma_whole_blocks(buf@.len(), bs as nat);
        }
        let mut out: Vec<u8> = Vec::new();
        let mut prev: (W, W) = (W::zero(), W::zero());
        let mut k: usize = 0;
        let mut off: usize = 0;
        while k < n
            invariant
                self.wf(),
                s@ == sched,
                sched.len() == 2 * (rounds + 1),
                rounds == self.rounds_spec(),
                bs == block_len::<W>(),
                bs > 0,
                n == buf@.len() / (bs as nat),
                n * bs == buf@.len(),
                buf@.len() <= usize::MAX,
                xs == to_blocks::<W>(buf@),
                xs.len() == n,
                k <= n,
                off == k * bs,
                cbc_chain(sched, rounds, xs.take(k as int)).len() == k,
                out@ == from_blocks(cbc_chain(sched, rounds, xs.take(k as int))),
                prev == chained_to(cbc_chain(sched, rounds, xs.take(k as int)), k as int),
            decreases n - k,
        {
            proof {
                lemma_block_fits(k as int, n as int, bs as int, buf@.len() as int);
                lemma_mul_succ(k as int, bs as int);
                assert(xs.take(k + 1).drop_last() =~= xs.take(k as int));
                lemma_chain_len(sched, rounds, xs.take(k + 1));
                lemma_from_blocks_take(cbc_chain(sched, rounds, xs.take(k + 1)), k as int);
                assert(cbc_chain(sched, rounds, xs.take(k + 1)).take(k as int) =~= cbc_chain(
                    sched,
                    rounds,
                    xs.take(k as int),
                ));
            }
            let x = read_block_at::<W>(buf.as_slice(), k, off);
            let c = self.encrypt_block((x.0.xor(prev.0), x.1.xor(prev.1)), &s);
            push_block(&mut out, c);
            prev = c;
            k = k + 1;
            off = off + bs;
        }
        assert(xs.take(n as int) =~= xs);
        out
    }

    /// Cipher-block-chaining decryption: each block of `ciphertext` is
    /// decrypted and XORed with the previous ciphertext block (the zero block
    /// for the first); then the padding that the last `encrypt_cbc` recorded
    /// is removed from the end. A buffer that is not a whole number of blocks,
    /// or shorter than the recorded padding, is refused.
    pub fn decrypt_cbc(&mut self, ciphertext: &[u8], key: &[u8]) -> (r: Result<
        Vec<u8>,
        CipherError,
    >)
        requires
            old(self).wf(),
        ensures
            *final(self) == *old(self),
            match r {
                Ok(p) => ciphertext@.len() % block_len::<W>() == 0 && old(self).pad_spec()
                    <= ciphertext@.len() && p@ == cbc_decrypt(
                    key_schedule::<W>(key@, old(self).rounds_spec()),
                    old(self).rounds_spec(),
                    ciphertext@,
                    old(self).pad_spec(),
                ),
                Err(e) => (ciphertext@.len() % block_len::<W>() != 0 && e
                    == CipherError::InvalidBlockLength) || (ciphertext@.len() % block_len::<W>()
                    == 0 && old(self).pad_spec() > ciphertext@.len() && e
                    == CipherError::PadLengthUnderflow),
            },
    {
        proof {
            W::lemma_byte_len();
        }
        let bs = 2 * W::byte_count();
        let len = ciphertext.len();
        if len % bs != 0 {
            return Err(CipherError::InvalidBlockLength);
        }
        if self.extended_part > len {
            return Err(CipherError::PadLengthUnderflow);
        }
        let s = self.key_expand(key);
        let n = len / bs;
        let ghost sched = s@;
        let ghost rounds = self.rounds_spec();
        let ghost ys = to_blocks::<W>(ciphertext@);
        let ghost xs = cbc_unchain(sched, rounds, ys);
        proof {
            lemma_whole_blocks(ciphertext@.len(), bs as nat);
        }
        let mut out: Vec<u8> = Vec::new();
        let mut prev: (W, W) = (W::zero(), W::zero());
        let mut k: usize = 0;
        let mut off: usize = 0;
        while k < n
            invariant
                self.wf(),
                s@ == sched,
                sched.len() == 2 * (rounds + 1),
                rounds == self.rounds_spec(),
                bs == block_len::<W>(),
                bs > 0,
                n == ciphertext@.len() / (bs as nat),
                n * bs == ciphertext@.len(),
                ciphertext@.len() <= usize::MAX,
                ys == to_blocks::<W>(ciphertext@),
                xs == cbc_unchain(sched, rounds, ys),
                ys.len() == n,
                xs.len() == n,
                k <= n,
                off == k * bs,
                out@ == from_blocks(xs.take(k as int)),
                prev == chained_to(ys, k as int),
            decreases n - k,
        {
            proof {
                lemma_block_fits(k as int, n as int, bs as int, ciphertext@.len() as int);
                lemma_mul_succ(k as int, bs as int);
                lemma_from_blocks_take(xs, k as int);
            }
            let y = read_block_at::<W>(ciphertext, k, off);
            let d = self.decrypt_block(y, &s);
            push_block(&mut out, (d.0.xor(prev.0), d.1.xor(prev.1)));
            prev = y;
            k = k + 1;
            off = off + bs;
        }
        assert(xs.take(n as int) =~= xs);
        proof {
            lemma_from_blocks_len(xs);
        }
        out.truncate(len - self.extended_part);
        Ok(out)
    }
}

} // verus!
