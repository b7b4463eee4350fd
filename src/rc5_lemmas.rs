use vstd::arithmetic::div_mod::{
    lemma_div_multiples_vanish,
    lemma_fundamental_div_mod,
    lemma_mod_multiples_basic,
};
use vstd::prelude::*;

use crate::rc5_spec::{
    block_bytes,
    block_len,
    cbc_chain,
    cbc_unchain,
    chained_to,
    key_word_count,
    pack_key,
    pad_len,
    padded,
    decrypt_block,
    decrypt_rounds,
    encrypt_block,
    encrypt_rounds,
    from_blocks,
    read_block,
    to_blocks,
    xor_block,
};
use crate::word::Word;

verus! {

/// `(k + 1) * m` unfolds to `k * m + m`.
pub proof fn lemma_mul_succ(k: int, m: int)
    ensures
        (k + 1) * m == k * m + m,
{
    assert((k + 1) * m == k * m + m) by (nonlinear_arith);
}

/// Multiplying by a non-negative factor keeps order.
pub proof fn lemma_mul_le(a: int, b: int, m: int)
    requires
        a <= b,
        0 <= m,
    ensures
        a * m <= b * m,
{
    assert(a * m <= b * m) by (nonlinear_arith)
        requires
            a <= b,
            0 <= m,
    ;
}

/// A length that is a whole number of blocks is that number times the block length.
pub proof fn lemma_whole_blocks(len: nat, m: nat)
    requires
        m > 0,
        len % m == 0,
    ensures
        len == (len / m) * m,
        ((len / m) * m) / m == len / m,
{
    lemma_fundamental_div_mod(len as int, m as int);
    assert((len / m) * m == m * (len / m)) by (nonlinear_arith);
    lemma_div_multiples_vanish((len / m) as int, m as int);
}

/// Decryption undoes encryption, round by round.
pub proof fn lemma_rounds_inverse<W: Word>(s: Seq<W>, x: (W, W), n: nat)
    ensures
        decrypt_rounds(s, encrypt_rounds(s, x, n), n) == x,
    decreases n,
{
    if n == 0 {
        W::lemma_add_sub(x.0, s[0]);
        W::lemma_add_sub(x.1, s[1]);
    } else {
        let y = encrypt_rounds(s, x, (n - 1) as nat);
        let a = y.0.xor_spec(y.1).rotl_spec(y.1.amount_spec()).add_spec(s[2 * n as int]);
        let b = y.1.xor_spec(a).rotl_spec(a.amount_spec()).add_spec(s[2 * n as int + 1]);
        W::lemma_add_sub(y.1.xor_spec(a).rotl_spec(a.amount_spec()), s[2 * n as int + 1]);
        W::lemma_rotl_rotr(y.1.xor_spec(a), a.amount_spec());
        W::lemma_xor_twice(y.1, a);
        W::lemma_add_sub(y.0.xor_spec(y.1).rotl_spec(y.1.amount_spec()), s[2 * n as int]);
        W::lemma_rotl_rotr(y.0.xor_spec(y.1), y.1.amount_spec());
        W::lemma_xor_twice(y.0, y.1);
        lemma_rounds_inverse(s, x, (n - 1) as nat);
    }
}

/// Decrypting an encrypted block gives the block back.
pub proof fn lemma_block_round_trip<W: Word>(s: Seq<W>, rounds: nat, x: (W, W))
    ensures
        decrypt_block(s, rounds, encrypt_block(s, rounds, x)) == x,
{
    lemma_rounds_inverse(s, x, rounds);
}

/// Encryption of a block is one to one.
pub proof fn lemma_encrypt_injective<W: Word>(s: Seq<W>, rounds: nat, x: (W, W), y: (W, W))
    requires
        encrypt_block(s, rounds, x) == encrypt_block(s, rounds, y),
    ensures
        x == y,
{
    lemma_block_round_trip(s, rounds, x);
    lemma_block_round_trip(s, rounds, y);
}

/// XOR with a fixed block is one to one.
pub proof fn lemma_xor_block_injective<W: Word>(x: (W, W), y: (W, W), z: (W, W))
    requires
        xor_block(x, z) == xor_block(y, z),
    ensures
        x == y,
{
    W::lemma_xor_twice(x.0, z.0);
    W::lemma_xor_twice(x.1, z.1);
    W::lemma_xor_twice(y.0, z.0);
    W::lemma_xor_twice(y.1, z.1);
}

pub proof fn lemma_block_bytes_len<W: Word>(x: (W, W))
    ensures
        block_bytes(x).len() == block_len::<W>(),
{
    W::lemma_le_of_word(x.0);
    W::lemma_le_of_word(x.1);
}

/// The bytes of a block determine the block.
pub proof fn lemma_block_bytes_injective<W: Word>(x: (W, W), y: (W, W))
    requires
        block_bytes(x) == block_bytes(y),
    ensures
        x == y,
{
    W::lemma_le_of_word(x.0);
    W::lemma_le_of_word(x.1);
    W::lemma_le_of_word(y.0);
    W::lemma_le_of_word(y.1);
    let u = W::byte_len() as int;
    assert(block_bytes(x).subrange(0, u) =~= x.0.to_le_spec());
    assert(block_bytes(y).subrange(0, u) =~= y.0.to_le_spec());
    assert(block_bytes(x).subrange(u, 2 * u) =~= x.1.to_le_spec());
    assert(block_bytes(y).subrange(u, 2 * u) =~= y.1.to_le_spec());
}

/// Reading the bytes of a block gives the block.
pub proof fn lemma_read_block_bytes<W: Word>(x: (W, W))
    ensures
        read_block::<W>(block_bytes(x), 0) == x,
{
    W::lemma_le_of_word(x.0);
    W::lemma_le_of_word(x.1);
    let u = W::byte_len() as int;
    assert(block_bytes(x).subrange(0, u) =~= x.0.to_le_spec());
    assert(block_bytes(x).subrange(u, 2 * u) =~= x.1.to_le_spec());
}

/// Block `k` of `p` is read from the bytes of that block alone.
pub proof fn lemma_read_block_local<W: Word>(p: Seq<u8>, k: int)
    requires
        0 <= k,
        (k + 1) * block_len::<W>() <= p.len(),
    ensures
        read_block::<W>(p, k) == read_block::<W>(
            p.subrange(k * block_len::<W>(), (k + 1) * block_len::<W>()),
            0,
        ),
{
    let u = W::byte_len() as int;
    let bl = block_len::<W>() as int;
    let q = p.subrange(k * bl, (k + 1) * bl);
    lemma_mul_succ(k, bl);
    assert(p.subrange(k * bl, k * bl + u) =~= q.subrange(0, u));
    assert(p.subrange(k * bl + u, k * bl + 2 * u) =~= q.subrange(u, 2 * u));
}

/// Writing out a block read from bytes gives the bytes.
pub proof fn lemma_bytes_of_read_block<W: Word>(q: Seq<u8>)
    requires
        q.len() == block_len::<W>(),
    ensures
        block_bytes(read_block::<W>(q, 0)) == q,
{
    let u = W::byte_len() as int;
    W::lemma_le_of_bytes(q.subrange(0, u));
    W::lemma_le_of_bytes(q.subrange(u, 2 * u));
    assert(block_bytes(read_block::<W>(q, 0)) =~= q);
}

pub proof fn lemma_from_blocks_len<W: Word>(xs: Seq<(W, W)>)
    ensures
        from_blocks(xs).len() == xs.len() * block_len::<W>(),
    decreases xs.len(),
{
    if xs.len() > 0 {
        lemma_from_blocks_len(xs.drop_last());
        lemma_block_bytes_len(xs.last());
        lemma_mul_succ(xs.len() - 1, block_len::<W>() as int);
    }
}

/// Block `j` of the bytes of `xs` is the bytes of `xs[j]`.
pub proof fn lemma_from_blocks_block<W: Word>(xs: Seq<(W, W)>, j: int)
    requires
        0 <= j < xs.len(),
    ensures
        from_blocks(xs).subrange(j * block_len::<W>(), (j + 1) * block_len::<W>())
            == block_bytes(xs[j]),
    decreases xs.len(),
{
    let bl = block_len::<W>() as int;
    let n = xs.len() as int;
    let f = from_blocks(xs.drop_last());
    lemma_from_blocks_len(xs.drop_last());
    lemma_block_bytes_len(xs.last());
    lemma_mul_succ(j, bl);
    if j == n - 1 {
        assert(from_blocks(xs).subrange(j * bl, (j + 1) * bl) =~= block_bytes(xs[j]));
    } else {
        lemma_mul_le(j + 1, n - 1, bl);
        lemma_from_blocks_block(xs.drop_last(), j);
        assert(from_blocks(xs).subrange(j * bl, (j + 1) * bl) =~= f.subrange(j * bl, (j + 1) * bl));
    }
}

/// Reading back the bytes of a sequence of blocks gives the blocks.
pub proof fn lemma_to_from_blocks<W: Word>(xs: Seq<(W, W)>)
    ensures
        to_blocks::<W>(from_blocks(xs)) == xs,
{
    W::lemma_byte_len();
    let bl = block_len::<W>() as int;
    let p = from_blocks(xs);
    lemma_from_blocks_len(xs);
    assert(xs.len() * bl == bl * xs.len()) by (nonlinear_arith);
    lemma_div_multiples_vanish(xs.len() as int, bl);
    assert forall|k: int| 0 <= k < xs.len() implies read_block::<W>(p, k) == xs[k] by {
        lemma_mul_le(k + 1, xs.len() as int, bl);
        lemma_read_block_local::<W>(p, k);
        lemma_from_blocks_block(xs, k);
        lemma_read_block_bytes(xs[k]);
    }
    assert(to_blocks::<W>(p) =~= xs);
}

/// Writing out the whole blocks of `p` gives `p` back when its length is a
/// whole number of blocks.
pub proof fn lemma_from_to_blocks<W: Word>(p: Seq<u8>)
    requires
        p.len() % block_len::<W>() == 0,
    ensures
        from_blocks(to_blocks::<W>(p)) == p,
    decreases p.len(),
{
    W::lemma_byte_len();
    let bl = block_len::<W>();
    let n = p.len() / bl;
    lemma_whole_blocks(p.len(), bl);
    if n == 0 {
        assert(p =~= Seq::<u8>::empty());
    } else {
        let m = ((n - 1) * bl) as nat;
        lemma_mul_succ(n - 1, bl as int);
        let q = p.take(m as int);
        assert(m % bl == 0) by {
            lemma_mod_multiples_basic(n - 1, bl as int);
        }
        lemma_whole_blocks(m, bl);
        assert((n - 1) * bl == bl * (n - 1)) by (nonlinear_arith);
        lemma_div_multiples_vanish(n - 1, bl as int);
        let xs = to_blocks::<W>(p);
        assert forall|k: int| 0 <= k < n - 1 implies read_block::<W>(q, k) == read_block::<W>(p, k) by {
            lemma_mul_le(k + 1, n - 1, bl as int);
            lemma_mul_le(0, k, bl as int);
            lemma_mul_le(n - 1, n as int, bl as int);
            lemma_mul_succ(k, bl as int);
            lemma_read_block_local::<W>(p, k);
            lemma_read_block_local::<W>(q, k);
            assert(q.subrange(k * bl, (k + 1) * bl) =~= p.subrange(k * bl, (k + 1) * bl));
        }
        assert(xs.drop_last() =~= to_blocks::<W>(q));
        lemma_from_to_blocks::<W>(q);
        lemma_read_block_local::<W>(p, n - 1);
        lemma_bytes_of_read_block::<W>(p.subrange(m as int, p.len() as int));
        assert(from_blocks(xs) =~= p);
    }
}

/// XOR onto a block is one to one in either operand.
pub proof fn lemma_xor_block_injective_right<W: Word>(z: (W, W), x: (W, W), y: (W, W))
    requires
        xor_block(z, x) == xor_block(z, y),
    ensures
        x == y,
{
    W::lemma_xor_commutes(z.0, x.0);
    W::lemma_xor_commutes(z.1, x.1);
    W::lemma_xor_commutes(z.0, y.0);
    W::lemma_xor_commutes(z.1, y.1);
    lemma_xor_block_injective(x, y, z);
}

pub proof fn lemma_chain_len<W: Word>(s: Seq<W>, rounds: nat, xs: Seq<(W, W)>)
    ensures
        cbc_chain(s, rounds, xs).len() == xs.len(),
    decreases xs.len(),
{
    if xs.len() > 0 {
        lemma_chain_len(s, rounds, xs.drop_last());
    }
}

/// Chaining a prefix gives the prefix of the chaining.
pub proof fn lemma_chain_prefix<W: Word>(s: Seq<W>, rounds: nat, xs: Seq<(W, W)>, m: int)
    requires
        0 <= m <= xs.len(),
    ensures
        cbc_chain(s, rounds, xs.take(m)) == cbc_chain(s, rounds, xs).take(m),
    decreases xs.len(),
{
    lemma_chain_len(s, rounds, xs);
    if m == xs.len() {
        assert(xs.take(m) =~= xs);
        assert(cbc_chain(s, rounds, xs).take(m) =~= cbc_chain(s, rounds, xs));
    } else {
        let prev = cbc_chain(s, rounds, xs.drop_last());
        lemma_chain_len(s, rounds, xs.drop_last());
        lemma_chain_prefix(s, rounds, xs.drop_last(), m);
        assert(xs.drop_last().take(m) =~= xs.take(m));
        assert(cbc_chain(s, rounds, xs).take(m) =~= prev.take(m));
    }
}

/// Block `k` of the chaining is the encryption of block `k` XORed with the
/// ciphertext block before it.
pub proof fn lemma_chain_index<W: Word>(s: Seq<W>, rounds: nat, xs: Seq<(W, W)>, k: int)
    requires
        0 <= k < xs.len(),
    ensures
        cbc_chain(s, rounds, xs)[k] == encrypt_block(
            s,
            rounds,
            xor_block(xs[k], chained_to(cbc_chain(s, rounds, xs), k)),
        ),
{
    let cs = cbc_chain(s, rounds, xs);
    lemma_chain_len(s, rounds, xs);
    lemma_chain_prefix(s, rounds, xs, k + 1);
    lemma_chain_prefix(s, rounds, xs, k);
    let ys = xs.take(k + 1);
    assert(ys.drop_last() =~= xs.take(k));
    lemma_chain_len(s, rounds, xs.take(k));
    assert(cbc_chain(s, rounds, ys)[k] == cs[k]);
}

/// Undoing the chaining of `xs` gives `xs`.
pub proof fn lemma_unchain_chain<W: Word>(s: Seq<W>, rounds: nat, xs: Seq<(W, W)>)
    ensures
        cbc_unchain(s, rounds, cbc_chain(s, rounds, xs)) == xs,
{
    let cs = cbc_chain(s, rounds, xs);
    lemma_chain_len(s, rounds, xs);
    assert forall|k: int| 0 <= k < xs.len() implies #[trigger] cbc_unchain(s, rounds, cs)[k]
        == xs[k] by {
        lemma_chain_index(s, rounds, xs, k);
        let iv = chained_to(cs, k);
        lemma_block_round_trip(s, rounds, xor_block(xs[k], iv));
        W::lemma_xor_twice(xs[k].0, iv.0);
        W::lemma_xor_twice(xs[k].1, iv.1);
    }
    assert(cbc_unchain(s, rounds, cs) =~= xs);
}

/// The padding brings a length up to a whole number of blocks, and is shorter
/// than one block.
pub proof fn lemma_pad_len<W: Word>(len: nat)
    ensures
        (len + pad_len::<W>(len)) % block_len::<W>() == 0,
        pad_len::<W>(len) < block_len::<W>(),
        len % block_len::<W>() == 0 ==> pad_len::<W>(len) == 0,
{
    W::lemma_byte_len();
    let bl = block_len::<W>() as int;
    let n = len as int;
    lemma_fundamental_div_mod(n, bl);
    if n % bl != 0 {
        assert(n + pad_len::<W>(len) == (n / bl + 1) * bl) by (nonlinear_arith)
            requires
                n == bl * (n / bl) + n % bl,
                pad_len::<W>(len) == bl - n % bl,
        ;
        lemma_mod_multiples_basic(n / bl + 1, bl);
    }
}

/// The padded text is the text followed by zero bytes, a whole number of blocks long.
pub proof fn lemma_padded<W: Word>(p: Seq<u8>)
    ensures
        padded::<W>(p).len() == p.len() + pad_len::<W>(p.len()),
        padded::<W>(p).len() % block_len::<W>() == 0,
        padded::<W>(p).take(p.len() as int) == p,
{
    lemma_pad_len::<W>(p.len());
    assert(padded::<W>(p).take(p.len() as int) =~= p);
}

/// One more block at the end adds its bytes at the end.
pub proof fn lemma_from_blocks_take<W: Word>(ys: Seq<(W, W)>, k: int)
    requires
        0 <= k < ys.len(),
    ensures
        from_blocks(ys.take(k + 1)) == from_blocks(ys.take(k)) + block_bytes(ys[k]),
{
    assert(ys.take(k + 1).drop_last() =~= ys.take(k));
}

/// Folding key bytes in keeps the number of key words.
pub proof fn lemma_pack_key_len<W: Word>(key: Seq<u8>, k: nat)
    ensures
        pack_key::<W>(key, k).len() == key_word_count::<W>(key.len()),
    decreases k,
{
    if k > 0 && k <= key.len() {
        lemma_pack_key_len::<W>(key, (k - 1) as nat);
        lemma_key_word_index::<W>((key.len() - k) as nat, key.len());
        W::lemma_byte_len();
    }
}

/// Byte `i` of a key of `len` bytes falls in one of its words.
pub proof fn lemma_key_word_index<W: Word>(i: nat, len: nat)
    requires
        i < len,
    ensures
        i / W::byte_len() < key_word_count::<W>(len),
{
    W::lemma_byte_len();
    let u = W::byte_len() as int;
    let a = i as int;
    let b = len as int;
    lemma_fundamental_div_mod(a, u);
    lemma_fundamental_div_mod(b, u);
    assert(a / u <= b / u) by (nonlinear_arith)
        requires
            a < b,
            u > 0,
            a == u * (a / u) + a % u,
            b == u * (b / u) + b % u,
            0 <= a % u < u,
            0 <= b % u < u,
    ;
    if b % u == 0 {
        assert(a / u < b / u) by (nonlinear_arith)
            requires
                a < b,
                u > 0,
                a == u * (a / u) + a % u,
                b == u * (b / u),
                0 <= a % u < u,
                a / u <= b / u,
        ;
    }
}

/// Every key packs into at least one word.
pub proof fn lemma_key_word_count_pos<W: Word>(len: nat)
    ensures
        key_word_count::<W>(len) >= 1,
{
    W::lemma_byte_len();
    let u = W::byte_len() as int;
    let n = len as int;
    lemma_fundamental_div_mod(n, u);
    if n > 0 && n % u == 0 {
        assert(n / u >= 1) by (nonlinear_arith)
            requires
                n > 0,
                u > 0,
                n == u * (n / u) + n % u,
                n % u == 0,
        ;
    }
}

} // verus!
