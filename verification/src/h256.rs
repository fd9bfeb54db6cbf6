//! A 256-bit word, the key and value type of the state tree.

use vstd::prelude::*;

verus! {

/// Thirty-two zero bytes.
const ZEROS: [u8; 32] = [
    0, 0, 0, 0, 0, 0, 0, 0,
    0, 0, 0, 0, 0, 0, 0, 0,
    0, 0, 0, 0, 0, 0, 0, 0,
    0, 0, 0, 0, 0, 0, 0, 0,
];

/// `n` zero bytes.
pub open spec fn zero_bytes(n: nat) -> Seq<u8> {
    Seq::new(n, |i: int| 0u8)
}

/// The all-zero word.
pub open spec fn zero_word() -> Seq<u8> {
    zero_bytes(32)
}

/// The four bytes of `n`, least significant first.
pub open spec fn le_u32_bytes(n: u32) -> Seq<u8> {
    seq![
        (n & 0xff) as u8,
        ((n >> 8) & 0xff) as u8,
        ((n >> 16) & 0xff) as u8,
        ((n >> 24) & 0xff) as u8,
    ]
}

/// The sixteen bytes of `n`, least significant first.
pub open spec fn le_u128_bytes(n: u128) -> Seq<u8> {
    seq![
        (n & 0xff) as u8,
        ((n >> 8) & 0xff) as u8,
        ((n >> 16) & 0xff) as u8,
        ((n >> 24) & 0xff) as u8,
        ((n >> 32) & 0xff) as u8,
        ((n >> 40) & 0xff) as u8,
        ((n >> 48) & 0xff) as u8,
        ((n >> 56) & 0xff) as u8,
        ((n >> 64) & 0xff) as u8,
        ((n >> 72) & 0xff) as u8,
        ((n >> 80) & 0xff) as u8,
        ((n >> 88) & 0xff) as u8,
        ((n >> 96) & 0xff) as u8,
        ((n >> 104) & 0xff) as u8,
        ((n >> 112) & 0xff) as u8,
        ((n >> 120) & 0xff) as u8,
    ]
}

/// The number whose bytes, least significant first, are the first bytes of `s`.
pub open spec fn le_u32_value(s: Seq<u8>) -> u32 {
    (s[0] as u32) |
    ((s[1] as u32) << 8) |
    ((s[2] as u32) << 16) |
    ((s[3] as u32) << 24)
}

/// The number whose bytes, least significant first, are the first bytes of `s`.
pub open spec fn le_u128_value(s: Seq<u8>) -> u128 {
    (s[0] as u128) |
    ((s[1] as u128) << 8) |
    ((s[2] as u128) << 16) |
    ((s[3] as u128) << 24) |
    ((s[4] as u128) << 32) |
    ((s[5] as u128) << 40) |
    ((s[6] as u128) << 48) |
    ((s[7] as u128) << 56) |
    ((s[8] as u128) << 64) |
    ((s[9] as u128) << 72) |
    ((s[10] as u128) << 80) |
    ((s[11] as u128) << 88) |
    ((s[12] as u128) << 96) |
    ((s[13] as u128) << 104) |
    ((s[14] as u128) << 112) |
    ((s[15] as u128) << 120)
}

/// The word that holds `n` little-endian in its first four bytes.
pub open spec fn u32_word(n: u32) -> Seq<u8> {
    le_u32_bytes(n) + zero_bytes(28)
}

/// The word that holds `n` little-endian in its first sixteen bytes.
pub open spec fn u128_word(n: u128) -> Seq<u8> {
    le_u128_bytes(n) + zero_bytes(16)
}

/// The number that a word's first four bytes hold, little-endian.
pub open spec fn word_u32(w: Seq<u8>) -> u32 {
    le_u32_value(w)
}

/// The number that a word's first sixteen bytes hold, little-endian.
pub open spec fn word_u128(w: Seq<u8>) -> u128 {
    le_u128_value(w)
}

/// A 256-bit word, as 32 bytes.
#[derive(Clone, Copy, Debug)]
pub struct H256 {
    bytes: [u8; 32],
}

impl View for H256 {
    type V = Seq<u8>;

    closed spec fn view(&self) -> Seq<u8> {
        self.bytes@
    }
}

impl H256 {
    /// The all-zero word.
    pub fn zero() -> (r: H256)
        ensures
            r@ == zero_word(),
    {
        let bytes: [u8; 32] = ZEROS;
        let r = H256 { bytes };
        assert(r@ =~= zero_word());
        r
    }

    /// The word that holds the given bytes.
    pub fn from_bytes(bytes: [u8; 32]) -> (r: H256)
        ensures
            r@ == bytes@,
    {
        H256 { bytes }
    }

    /// The bytes of the word.
    pub fn to_bytes(&self) -> (r: [u8; 32])
        ensures
            r@ == self@,
    {
        self.bytes
    }

    /// The bytes of the word, borrowed.
    pub fn as_slice(&self) -> (r: &[u8])
        ensures
            r@ == self@,
    {
        self.bytes.as_slice()
    }

    /// Whether every byte of the word is zero.
    pub fn is_zero(&self) -> (r: bool)
        ensures
            r == (self@ == zero_word()),
    {
        let mut i: usize = 0;
        while i < 32
            invariant
                i <= 32,
                self@.len() == 32,
                forall|j: int| 0 <= j < i ==> self@[j] == 0u8,
            decreases 32 - i,
        {
            if self.bytes[i] != 0 {
                assert(self@[i as int] != zero_word()[i as int]);
                return false;
            }
            i = i + 1;
        }
        assert(self@ =~= zero_word());
        true
    }

    /// Whether two words hold the same bytes.
    pub fn same_as(&self, other: &H256) -> (r: bool)
        ensures
            r == (self@ == other@),
    {
        let mut i: usize = 0;
        while i < 32
            invariant
                i <= 32,
                self@.len() == 32,
                other@.len() == 32,
                forall|j: int| 0 <= j < i ==> self@[j] == other@[j],
            decreases 32 - i,
        {
            if self.bytes[i] != other.bytes[i] {
                return false;
            }
            i = i + 1;
        }
        assert(self@ =~= other@);
        true
    }

    /// The word that holds 1, the value that marks a stored data hash.
    pub fn one() -> (r: H256)
        ensures
            r@ == u32_word(1),
    {
        H256::from_u32(1)
    }

    /// The word that holds `n` little-endian in its first four bytes.
    pub fn from_u32(n: u32) -> (r: H256)
        ensures
            r@ == u32_word(n),
    {
        let mut bytes = H256::zero().bytes;
        bytes[0] = (n & 0xff) as u8;
        bytes[1] = ((n >> 8) & 0xff) as u8;
        bytes[2] = ((n >> 16) & 0xff) as u8;
        bytes[3] = ((n >> 24) & 0xff) as u8;
        assert(bytes@ =~= u32_word(n));
        H256 { bytes }
    }

    /// The number that the first four bytes hold, little-endian.
    pub fn to_u32(&self) -> (r: u32)
        ensures
            r == word_u32(self@),
    {
        let b = &self.bytes;
        (b[0] as u32) |
        ((b[1] as u32) << 8) |
        ((b[2] as u32) << 16) |
        ((b[3] as u32) << 24)
    }

    /// The word that holds `n` little-endian in its first sixteen bytes.
    pub fn from_u128(n: u128) -> (r: H256)
        ensures
            r@ == u128_word(n),
    {
        let mut bytes = H256::zero().bytes;
        bytes[0] = (n & 0xff) as u8;
        bytes[1] = ((n >> 8) & 0xff) as u8;
        bytes[2] = ((n >> 16) & 0xff) as u8;
        bytes[3] = ((n >> 24) & 0xff) as u8;
        bytes[4] = ((n >> 32) & 0xff) as u8;
        bytes[5] = ((n >> 40) & 0xff) as u8;
        bytes[6] = ((n >> 48) & 0xff) as u8;
        bytes[7] = ((n >> 56) & 0xff) as u8;
        bytes[8] = ((n >> 64) & 0xff) as u8;
        bytes[9] = ((n >> 72) & 0xff) as u8;
        bytes[10] = ((n >> 80) & 0xff) as u8;
        bytes[11] = ((n >> 88) & 0xff) as u8;
        bytes[12] = ((n >> 96) & 0xff) as u8;
        bytes[13] = ((n >> 104) & 0xff) as u8;
        bytes[14] = ((n >> 112) & 0xff) as u8;
        bytes[15] = ((n >> 120) & 0xff) as u8;
        assert(bytes@ =~= u128_word(n));
        H256 { bytes }
    }

    /// The number that the first sixteen bytes hold, little-endian.
    pub fn to_u128(&self) -> (r: u128)
        ensures
            r == word_u128(self@),
    {
        let b = &self.bytes;
        (b[0] as u128) |
        ((b[1] as u128) << 8) |
        ((b[2] as u128) << 16) |
        ((b[3] as u128) << 24) |
        ((b[4] as u128) << 32) |
        ((b[5] as u128) << 40) |
        ((b[6] as u128) << 48) |
        ((b[7] as u128) << 56) |
        ((b[8] as u128) << 64) |
        ((b[9] as u128) << 72) |
        ((b[10] as u128) << 80) |
        ((b[11] as u128) << 88) |
        ((b[12] as u128) << 96) |
        ((b[13] as u128) << 104) |
        ((b[14] as u128) << 112) |
        ((b[15] as u128) << 120)
    }
}

/// Every word is 32 bytes long.
pub broadcast proof fn lemma_h256_len(h: H256)
    ensures
        #[trigger] h@.len() == 32,
{
}

/// Reading back a number stored in a word gives the number.
pub proof fn lemma_u32_word_roundtrip(n: u32)
    ensures
        word_u32(u32_word(n)) == n,
        u32_word(n).len() == 32,
{
    assert((((n & 0xff) as u8) as u32) | (((((n >> 8) & 0xff) as u8) as u32) << 8) | (((((n >> 16) & 0xff) as u8) as u32) << 16) | (((((n >> 24) & 0xff) as u8) as u32) << 24) == n) by (bit_vector);
}

/// Reading back a balance stored in a word gives the balance.
pub proof fn lemma_u128_word_roundtrip(n: u128)
    ensures
        word_u128(u128_word(n)) == n,
        u128_word(n).len() == 32,
{
    assert((((n & 0xff) as u8) as u128) |
        (((((n >> 8) & 0xff) as u8) as u128) << 8) |
        (((((n >> 16) & 0xff) as u8) as u128) << 16) |
        (((((n >> 24) & 0xff) as u8) as u128) << 24) |
        (((((n >> 32) & 0xff) as u8) as u128) << 32) |
        (((((n >> 40) & 0xff) as u8) as u128) << 40) |
        (((((n >> 48) & 0xff) as u8) as u128) << 48) |
        (((((n >> 56) & 0xff) as u8) as u128) << 56) |
        (((((n >> 64) & 0xff) as u8) as u128) << 64) |
        (((((n >> 72) & 0xff) as u8) as u128) << 72) |
        (((((n >> 80) & 0xff) as u8) as u128) << 80) |
        (((((n >> 88) & 0xff) as u8) as u128) << 88) |
        (((((n >> 96) & 0xff) as u8) as u128) << 96) |
        (((((n >> 104) & 0xff) as u8) as u128) << 104) |
        (((((n >> 112) & 0xff) as u8) as u128) << 112) |
        (((((n >> 120) & 0xff) as u8) as u128) << 120) == n) by (bit_vector);
}

/// Two numbers are stored as the same word only if they are equal.
pub proof fn lemma_u32_word_injective(a: u32, b: u32)
    ensures
        (u32_word(a) == u32_word(b)) <==> a == b,
{
    lemma_u32_word_roundtrip(a);
    lemma_u32_word_roundtrip(b);
}

/// Two balances are stored as the same word only if they are equal.
pub proof fn lemma_u128_word_injective(a: u128, b: u128)
    ensures
        (u128_word(a) == u128_word(b)) <==> a == b,
{
    lemma_u128_word_roundtrip(a);
    lemma_u128_word_roundtrip(b);
}

/// The word of a number is the zero word exactly when the number is zero.
pub proof fn lemma_u32_word_zero(n: u32)
    ensures
        (u32_word(n) == zero_word()) <==> n == 0,
{
    lemma_u32_word_roundtrip(n);
    assert((0u32 & 0xff) as u8 == 0u8 && ((0u32 >> 8) & 0xff) as u8 == 0u8
        && ((0u32 >> 16) & 0xff) as u8 == 0u8 && ((0u32 >> 24) & 0xff) as u8 == 0u8)
        by (bit_vector);
    assert(u32_word(0) =~= zero_word());
    if u32_word(n) == zero_word() {
        assert(word_u32(zero_word()) == 0) by {
            let z = zero_word();
            let (z0, z1, z2, z3) = (z[0], z[1], z[2], z[3]);
            assert(z0 == 0u8 && z1 == 0u8 && z2 == 0u8 && z3 == 0u8 ==> (z0 as u32) | ((z1 as u32)
                << 8) | ((z2 as u32) << 16) | ((z3 as u32) << 24) == 0u32) by (bit_vector);
        }
    }
}

/// The zero word reads as the number zero and the balance zero.
pub proof fn lemma_zero_word_reads_zero()
    ensures
        word_u32(zero_word()) == 0,
        word_u128(zero_word()) == 0,
{
    lemma_u32_word_zero(0);
    lemma_u32_word_roundtrip(0);
    let z = zero_word();
    let z0 = z[0];
    let z1 = z[1];
    let z2 = z[2];
    let z3 = z[3];
    let z4 = z[4];
    let z5 = z[5];
    let z6 = z[6];
    let z7 = z[7];
    let z8 = z[8];
    let z9 = z[9];
    let z10 = z[10];
    let z11 = z[11];
    let z12 = z[12];
    let z13 = z[13];
    let z14 = z[14];
    let z15 = z[15];
    assert(z0 == 0u8 && z1 == 0u8 && z2 == 0u8 && z3 == 0u8 && z4 == 0u8 && z5 == 0u8 && z6 == 0u8 && z7 == 0u8 &&
        z8 == 0u8 && z9 == 0u8 && z10 == 0u8 && z11 == 0u8 && z12 == 0u8 && z13 == 0u8 && z14 == 0u8 && z15 == 0u8 ==>
        (z0 as u128) | ((z1 as u128) << 8) | ((z2 as u128) << 16) | ((z3 as u128) << 24) | ((z4 as u128) << 32) | ((z5 as u128) << 40) | ((z6 as u128) << 48) | ((z7 as u128) << 56) |
        ((z8 as u128) << 64) | ((z9 as u128) << 72) | ((z10 as u128) << 80) | ((z11 as u128) << 88) | ((z12 as u128) << 96) | ((z13 as u128) << 104) | ((z14 as u128) << 112) | ((z15 as u128) << 120) == 0u128) by (bit_vector);
}

} // verus!
