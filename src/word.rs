use vstd::prelude::*;

verus! {

/// An unsigned fixed-width integer that the RC5 cipher can use as its word.
///
/// The spec functions give the meaning of each operation; the exec functions
/// are tied to them by their contracts, and the proof functions state the
/// algebraic facts that the cipher's round-trip proofs rest on.
pub trait Word: Copy + Sized {
    /// Number of bytes in one word.
    spec fn byte_len() -> nat;

    spec fn zero_spec() -> Self;

    /// The first magic constant, Odd((e - 2) * 2^w).
    spec fn p_spec() -> Self;

    /// The second magic constant, Odd((phi - 1) * 2^w).
    spec fn q_spec() -> Self;

    spec fn from_byte_spec(b: u8) -> Self;

    /// Addition modulo 2^w.
    spec fn add_spec(self, o: Self) -> Self;

    /// Subtraction modulo 2^w.
    spec fn sub_spec(self, o: Self) -> Self;

    spec fn xor_spec(self, o: Self) -> Self;

    /// Rotation to the left by `n` taken modulo the bit width.
    spec fn rotl_spec(self, n: u32) -> Self;

    /// Rotation to the right by `n` taken modulo the bit width.
    spec fn rotr_spec(self, n: u32) -> Self;

    /// The word taken modulo the bit width: the rotation amount it stands for.
    spec fn amount_spec(self) -> u32;

    /// The word whose little-endian bytes are `bytes`.
    spec fn from_le_spec(bytes: Seq<u8>) -> Self;

    /// The little-endian bytes of the word.
    spec fn to_le_spec(self) -> Seq<u8>;

    fn byte_count() -> (r: usize)
        ensures
            r as nat == Self::byte_len(),
    ;

    fn zero() -> (r: Self)
        ensures
            r == Self::zero_spec(),
    ;

    fn magic_p() -> (r: Self)
        ensures
            r == Self::p_spec(),
    ;

    fn magic_q() -> (r: Self)
        ensures
            r == Self::q_spec(),
    ;

    fn from_byte(b: u8) -> (r: Self)
        ensures
            r == Self::from_byte_spec(b),
    ;

    fn wrapping_add(self, o: Self) -> (r: Self)
        ensures
            r == self.add_spec(o),
    ;

    fn wrapping_sub(self, o: Self) -> (r: Self)
        ensures
            r == self.sub_spec(o),
    ;

    fn xor(self, o: Self) -> (r: Self)
        ensures
            r == self.xor_spec(o),
    ;

    fn rotate_left(self, n: u32) -> (r: Self)
        ensures
            r == self.rotl_spec(n),
    ;

    fn rotate_right(self, n: u32) -> (r: Self)
        ensures
            r == self.rotr_spec(n),
    ;

    fn rotation_amount(self) -> (r: u32)
        ensures
            r == self.amount_spec(),
    ;

    fn from_le_bytes(bytes: &[u8]) -> (r: Self)
        requires
            bytes@.len() == Self::byte_len(),
        ensures
            r == Self::from_le_spec(bytes@),
    ;

    fn to_le_bytes(&self) -> (r: Vec<u8>)
        ensures
            r@ == self.to_le_spec(),
    ;

    proof fn lemma_byte_len()
        ensures
            2 <= Self::byte_len() <= 8,
    ;

    /// Subtracting what was added gives the word back.
    proof fn lemma_add_sub(a: Self, b: Self)
        ensures
            a.add_spec(b).sub_spec(b) == a,
    ;

    /// Exclusive or with the same word twice gives the word back.
    proof fn lemma_xor_twice(a: Self, b: Self)
        ensures
            a.xor_spec(b).xor_spec(b) == a,
    ;

    /// Exclusive or does not depend on the order of its operands.
    proof fn lemma_xor_commutes(a: Self, b: Self)
        ensures
            a.xor_spec(b) == b.xor_spec(a),
    ;

    /// Rotating right undoes rotating left by the same amount.
    proof fn lemma_rotl_rotr(a: Self, n: u32)
        ensures
            a.rotl_spec(n).rotr_spec(n) == a,
    ;

    /// Reading back the little-endian bytes of a word gives the word.
    proof fn lemma_le_of_word(a: Self)
        ensures
            a.to_le_spec().len() == Self::byte_len(),
            Self::from_le_spec(a.to_le_spec()) == a,
    ;

    /// Writing out a word read from bytes gives the bytes.
    proof fn lemma_le_of_bytes(bytes: Seq<u8>)
        requires
            bytes.len() == Self::byte_len(),
        ensures
            Self::from_le_spec(bytes).to_le_spec() == bytes,
    ;
}

impl Word for u16 {
    open spec fn byte_len() -> nat {
        2
    }

    open spec fn zero_spec() -> u16 {
        0
    }

    open spec fn p_spec() -> u16 {
        0xB7E1
    }

    open spec fn q_spec() -> u16 {
        0x9E37
    }

    open spec fn from_byte_spec(b: u8) -> u16 {
        b as u16
    }

    open spec fn add_spec(self, o: u16) -> u16 {
        (self + o) as u16
    }

    open spec fn sub_spec(self, o: u16) -> u16 {
        (self - o) as u16
    }

    open spec fn xor_spec(self, o: u16) -> u16 {
        self ^ o
    }

    open spec fn rotl_spec(self, n: u32) -> u16 {
        (self << (n % 16)) | (self >> ((16 - n % 16) % 16) as u32)
    }

    open spec fn rotr_spec(self, n: u32) -> u16 {
        (self >> (n % 16)) | (self << ((16 - n % 16) % 16) as u32)
    }

    open spec fn amount_spec(self) -> u32 {
        (self % 16) as u32
    }

    open spec fn from_le_spec(bytes: Seq<u8>) -> u16 {
        (bytes[0] as u16) | ((bytes[1] as u16) << 8u32)
    }

    open spec fn to_le_spec(self) -> Seq<u8> {
        seq![self as u8, (self >> 8u32) as u8]
    }

    fn byte_count() -> (r: usize) {
        2
    }

    fn zero() -> (r: u16) {
        0
    }

    fn magic_p() -> (r: u16) {
        0xB7E1
    }

    fn magic_q() -> (r: u16) {
        0x9E37
    }

    fn from_byte(b: u8) -> (r: u16) {
        b as u16
    }

    fn wrapping_add(self, o: u16) -> (r: u16) {
        let r = u16::wrapping_add(self, o);
        assert(r == (self + o) as u16) by (bit_vector)
            requires
                r == vstd::wrapping::u16_specs::wrapping_add(self, o),
        ;
        r
    }

    fn wrapping_sub(self, o: u16) -> (r: u16) {
        let r = u16::wrapping_sub(self, o);
        assert(r == (self - o) as u16) by (bit_vector)
            requires
                r == vstd::wrapping::u16_specs::wrapping_sub(self, o),
        ;
        r
    }

    fn xor(self, o: u16) -> (r: u16) {
        self ^ o
    }

    fn rotate_left(self, n: u32) -> (r: u16) {
        let k = n % 16;
        (self << k) | (self >> ((16 - k) % 16))
    }

    fn rotate_right(self, n: u32) -> (r: u16) {
        let k = n % 16;
        (self >> k) | (self << ((16 - k) % 16))
    }

    fn rotation_amount(self) -> (r: u32) {
        (self % 16) as u32
    }

    fn from_le_bytes(bytes: &[u8]) -> (r: u16) {
        (bytes[0] as u16) | ((bytes[1] as u16) << 8u32)
    }

    fn to_le_bytes(&self) -> (r: Vec<u8>) {
        let x = *self;
        let mut r: Vec<u8> = Vec::new();
        r.push(x as u8);
        r.push((x >> 8u32) as u8);
        assert(r@ =~= self.to_le_spec());
        r
    }

    proof fn lemma_byte_len() {
    }

    proof fn lemma_add_sub(a: u16, b: u16) {
        assert(((a + b) as u16 - b) as u16 == a) by (bit_vector);
    }

    proof fn lemma_xor_twice(a: u16, b: u16) {
        assert((a ^ b) ^ b == a) by (bit_vector);
    }

    proof fn lemma_xor_commutes(a: u16, b: u16) {
        assert(a ^ b == b ^ a) by (bit_vector);
    }

    proof fn lemma_rotl_rotr(a: u16, n: u32) {
        let k = n % 16;
        let l = (a << k) | (a >> ((16 - k) % 16) as u32);
        assert(k < 16 ==> ((l >> k) | (l << ((16 - k) % 16) as u32)) == a) by (bit_vector)
            requires
                l == (a << k) | (a >> ((16 - k) % 16) as u32),
        ;
    }

    proof fn lemma_le_of_word(a: u16) {
        assert(((a as u8) as u16) | ((((a >> 8u32) as u8) as u16) << 8u32) == a) by (bit_vector);
    }

    proof fn lemma_le_of_bytes(bytes: Seq<u8>) {
        let b0 = bytes[0];
        let b1 = bytes[1];
        let x = Self::from_le_spec(bytes);
        assert(x == (b0 as u16) | ((b1 as u16) << 8u32));
        assert(x as u8 == b0 && (x >> 8u32) as u8 == b1) by (bit_vector)
            requires
                x == (b0 as u16) | ((b1 as u16) << 8u32),
        ;
        assert(x.to_le_spec() =~= bytes);
    }
}

impl Word for u32 {
    open spec fn byte_len() -> nat {
        4
    }

    open spec fn zero_spec() -> u32 {
        0
    }

    open spec fn p_spec() -> u32 {
        0xB7E15163
    }

    open spec fn q_spec() -> u32 {
        0x9E3779B9
    }

    open spec fn from_byte_spec(b: u8) -> u32 {
        b as u32
    }

    open spec fn add_spec(self, o: u32) -> u32 {
        (self + o) as u32
    }

    open spec fn sub_spec(self, o: u32) -> u32 {
        (self - o) as u32
    }

    open spec fn xor_spec(self, o: u32) -> u32 {
        self ^ o
    }

    open spec fn rotl_spec(self, n: u32) -> u32 {
        (self << (n % 32)) | (self >> ((32 - n % 32) % 32) as u32)
    }

    open spec fn rotr_spec(self, n: u32) -> u32 {
        (self >> (n % 32)) | (self << ((32 - n % 32) % 32) as u32)
    }

    open spec fn amount_spec(self) -> u32 {
        (self % 32) as u32
    }

    open spec fn from_le_spec(bytes: Seq<u8>) -> u32 {
        (bytes[0] as u32) | ((bytes[1] as u32) << 8u32) | ((bytes[2] as u32) << 16u32) | ((bytes[3] as u32) << 24u32)
    }

    open spec fn to_le_spec(self) -> Seq<u8> {
        seq![self as u8, (self >> 8u32) as u8, (self >> 16u32) as u8, (self >> 24u32) as u8]
    }

    fn byte_count() -> (r: usize) {
        4
    }

    fn zero() -> (r: u32) {
        0
    }

    fn magic_p() -> (r: u32) {
        0xB7E15163
    }

    fn magic_q() -> (r: u32) {
        0x9E3779B9
    }

    fn from_byte(b: u8) -> (r: u32) {
        b as u32
    }

    fn wrapping_add(self, o: u32) -> (r: u32) {
        let r = u32::wrapping_add(self, o);
        assert(r == (self + o) as u32) by (bit_vector)
            requires
                r == vstd::wrapping::u32_specs::wrapping_add(self, o),
        ;
        r
    }

    fn wrapping_sub(self, o: u32) -> (r: u32) {
        let r = u32::wrapping_sub(self, o);
        assert(r == (self - o) as u32) by (bit_vector)
            requires
                r == vstd::wrapping::u32_specs::wrapping_sub(self, o),
        ;
        r
    }

    fn xor(self, o: u32) -> (r: u32) {
        self ^ o
    }

    fn rotate_left(self, n: u32) -> (r: u32) {
        let k = n % 32;
        (self << k) | (self >> ((32 - k) % 32))
    }

    fn rotate_right(self, n: u32) -> (r: u32) {
        let k = n % 32;
        (self >> k) | (self << ((32 - k) % 32))
    }

    fn rotation_amount(self) -> (r: u32) {
        (self % 32) as u32
    }

    fn from_le_bytes(bytes: &[u8]) -> (r: u32) {
        (bytes[0] as u32) | ((bytes[1] as u32) << 8u32) | ((bytes[2] as u32) << 16u32) | ((bytes[3] as u32) << 24u32)
    }

    fn to_le_bytes(&self) -> (r: Vec<u8>) {
        let x = *self;
        let mut r: Vec<u8> = Vec::new();
        r.push(x as u8);
        r.push((x >> 8u32) as u8);
        r.push((x >> 16u32) as u8);
        r.push((x >> 24u32) as u8);
        assert(r@ =~= self.to_le_spec());
        r
    }

    proof fn lemma_byte_len() {
    }

    proof fn lemma_add_sub(a: u32, b: u32) {
        assert(((a + b) as u32 - b) as u32 == a) by (bit_vector);
    }

    proof fn lemma_xor_twice(a: u32, b: u32) {
        assert((a ^ b) ^ b == a) by (bit_vector);
    }

    proof fn lemma_xor_commutes(a: u32, b: u32) {
        assert(a ^ b == b ^ a) by (bit_vector);
    }

    proof fn lemma_rotl_rotr(a: u32, n: u32) {
        let k = n % 32;
        let l = (a << k) | (a >> ((32 - k) % 32) as u32);
        assert(k < 32 ==> ((l >> k) | (l << ((32 - k) % 32) as u32)) == a) by (bit_vector)
            requires
                l == (a << k) | (a >> ((32 - k) % 32) as u32),
        ;
    }

    proof fn lemma_le_of_word(a: u32) {
        assert(((a as u8) as u32) | ((((a >> 8u32) as u8) as u32) << 8u32) | ((((a >> 16u32) as u8) as u32) << 16u32) | ((((a >> 24u32) as u8) as u32) << 24u32) == a) by (bit_vector);
    }

    proof fn lemma_le_of_bytes(bytes: Seq<u8>) {
        let b0 = bytes[0];
        let b1 = bytes[1];
        let b2 = bytes[2];
        let b3 = bytes[3];
        let x = Self::from_le_spec(bytes);
        assert(x == (b0 as u32) | ((b1 as u32) << 8u32) | ((b2 as u32) << 16u32) | ((b3 as u32) << 24u32));
        assert(x as u8 == b0 && (x >> 8u32) as u8 == b1 && (x >> 16u32) as u8 == b2 && (x >> 24u32) as u8 == b3) by (bit_vector)
            requires
                x == (b0 as u32) | ((b1 as u32) << 8u32) | ((b2 as u32) << 16u32) | ((b3 as u32) << 24u32),
        ;
        assert(x.to_le_spec() =~= bytes);
    }
}

impl Word for u64 {
    open spec fn byte_len() -> nat {
        8
    }

    open spec fn zero_spec() -> u64 {
        0
    }

    open spec fn p_spec() -> u64 {
        0xB7E151628AED2A6B
    }

    open spec fn q_spec() -> u64 {
        0x9E3779B97F4A7C15
    }

    open spec fn from_byte_spec(b: u8) -> u64 {
        b as u64
    }

    open spec fn add_spec(self, o: u64) -> u64 {
        (self + o) as u64
    }

    open spec fn sub_spec(self, o: u64) -> u64 {
        (self - o) as u64
    }

    open spec fn xor_spec(self, o: u64) -> u64 {
        self ^ o
    }

    open spec fn rotl_spec(self, n: u32) -> u64 {
        (self << (n % 64)) | (self >> ((64 - n % 64) % 64) as u32)
    }

    open spec fn rotr_spec(self, n: u32) -> u64 {
        (self >> (n % 64)) | (self << ((64 - n % 64) % 64) as u32)
    }

    open spec fn amount_spec(self) -> u32 {
        (self % 64) as u32
    }

    open spec fn from_le_spec(bytes: Seq<u8>) -> u64 {
        (bytes[0] as u64) | ((bytes[1] as u64) << 8u32) | ((bytes[2] as u64) << 16u32) | ((bytes[3] as u64) << 24u32) | ((bytes[4] as u64) << 32u32) | ((bytes[5] as u64) << 40u32) | ((bytes[6] as u64) << 48u32) | ((bytes[7] as u64) << 56u32)
    }

    open spec fn to_le_spec(self) -> Seq<u8> {
        seq![self as u8, (self >> 8u32) as u8, (self >> 16u32) as u8, (self >> 24u32) as u8, (self >> 32u32) as u8, (self >> 40u32) as u8, (self >> 48u32) as u8, (self >> 56u32) as u8]
    }

    fn byte_count() -> (r: usize) {
        8
    }

    fn zero() -> (r: u64) {
        0
    }

    fn magic_p() -> (r: u64) {
        0xB7E151628AED2A6B
    }

    fn magic_q() -> (r: u64) {
        0x9E3779B97F4A7C15
    }

    fn from_byte(b: u8) -> (r: u64) {
        b as u64
    }

    fn wrapping_add(self, o: u64) -> (r: u64) {
        let r = u64::wrapping_add(self, o);
        assert(r == (self + o) as u64) by (bit_vector)
            requires
                r == vstd::wrapping::u64_specs::wrapping_add(self, o),
        ;
        r
    }

    fn wrapping_sub(self, o: u64) -> (r: u64) {
        let r = u64::wrapping_sub(self, o);
        assert(r == (self - o) as u64) by (bit_vector)
            requires
                r == vstd::wrapping::u64_specs::wrapping_sub(self, o),
        ;
        r
    }

    fn xor(self, o: u64) -> (r: u64) {
        self ^ o
    }

    fn rotate_left(self, n: u32) -> (r: u64) {
        let k = n % 64;
        (self << k) | (self >> ((64 - k) % 64))
    }

    fn rotate_right(self, n: u32) -> (r: u64) {
        let k = n % 64;
        (self >> k) | (self << ((64 - k) % 64))
    }

    fn rotation_amount(self) -> (r: u32) {
        (self % 64) as u32
    }

    fn from_le_bytes(bytes: &[u8]) -> (r: u64) {
        (bytes[0] as u64) | ((bytes[1] as u64) << 8u32) | ((bytes[2] as u64) << 16u32) | ((bytes[3] as u64) << 24u32) | ((bytes[4] as u64) << 32u32) | ((bytes[5] as u64) << 40u32) | ((bytes[6] as u64) << 48u32) | ((bytes[7] as u64) << 56u32)
    }

    fn to_le_bytes(&self) -> (r: Vec<u8>) {
        let x = *self;
        let mut r: Vec<u8> = Vec::new();
        r.push(x as u8);
        r.push((x >> 8u32) as u8);
        r.push((x >> 16u32) as u8);
        r.push((x >> 24u32) as u8);
        r.push((x >> 32u32) as u8);
        r.push((x >> 40u32) as u8);
        r.push((x >> 48u32) as u8);
        r.push((x >> 56u32) as u8);
        assert(r@ =~= self.to_le_spec());
        r
    }

    proof fn lemma_byte_len() {
    }

    proof fn lemma_add_sub(a: u64, b: u64) {
        assert(((a + b) as u64 - b) as u64 == a) by (bit_vector);
    }

    proof fn lemma_xor_twice(a: u64, b: u64) {
        assert((a ^ b) ^ b == a) by (bit_vector);
    }

    proof fn lemma_xor_commutes(a: u64, b: u64) {
        assert(a ^ b == b ^ a) by (bit_vector);
    }

    proof fn lemma_rotl_rotr(a: u64, n: u32) {
        let k = n % 64;
        let l = (a << k) | (a >> ((64 - k) % 64) as u32);
        assert(k < 64 ==> ((l >> k) | (l << ((64 - k) % 64) as u32)) == a) by (bit_vector)
            requires
                l == (a << k) | (a >> ((64 - k) % 64) as u32),
        ;
    }

    proof fn lemma_le_of_word(a: u64) {
        assert(((a as u8) as u64) | ((((a >> 8u32) as u8) as u64) << 8u32) | ((((a >> 16u32) as u8) as u64) << 16u32) | ((((a >> 24u32) as u8) as u64) << 24u32) | ((((a >> 32u32) as u8) as u64) << 32u32) | ((((a >> 40u32) as u8) as u64) << 40u32) | ((((a >> 48u32) as u8) as u64) << 48u32) | ((((a >> 56u32) as u8) as u64) << 56u32) == a) by (bit_vector);
    }

    proof fn lemma_le_of_bytes(bytes: Seq<u8>) {
        let b0 = bytes[0];
        let b1 = bytes[1];
        let b2 = bytes[2];
        let b3 = bytes[3];
        let b4 = bytes[4];
        let b5 = bytes[5];
        let b6 = bytes[6];
        let b7 = bytes[7];
        let x = Self::from_le_spec(bytes);
        assert(x == (b0 as u64) | ((b1 as u64) << 8u32) | ((b2 as u64) << 16u32) | ((b3 as u64) << 24u32) | ((b4 as u64) << 32u32) | ((b5 as u64) << 40u32) | ((b6 as u64) << 48u32) | ((b7 as u64) << 56u32));
        assert(x as u8 == b0 && (x >> 8u32) as u8 == b1 && (x >> 16u32) as u8 == b2 && (x >> 24u32) as u8 == b3 && (x >> 32u32) as u8 == b4 && (x >> 40u32) as u8 == b5 && (x >> 48u32) as u8 == b6 && (x >> 56u32) as u8 == b7) by (bit_vector)
            requires
                x == (b0 as u64) | ((b1 as u64) << 8u32) | ((b2 as u64) << 16u32) | ((b3 as u64) << 24u32) | ((b4 as u64) << 32u32) | ((b5 as u64) << 40u32) | ((b6 as u64) << 48u32) | ((b7 as u64) << 56u32),
        ;
        assert(x.to_le_spec() =~= bytes);
    }
}

} // verus!
