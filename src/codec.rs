use vstd::prelude::*;

verus! {

/// The little-endian unsigned integer held by the four bytes of `b` from `at`.
pub open spec fn le_u32_at(b: Seq<u8>, at: int) -> int {
    b[at] + 0x100 * b[at + 1] + 0x1_0000 * b[at + 2] + 0x100_0000 * b[at + 3]
}

/// The little-endian unsigned integer held by the eight bytes of `b` from `at`.
pub open spec fn le_u64_at(b: Seq<u8>, at: int) -> int {
    le_u32_at(b, at) + 0x1_0000_0000 * le_u32_at(b, at + 4)
}

/// The 32-bit words of `b`, four bytes each; a shorter tail is ignored.
pub open spec fn u32_words(b: Seq<u8>) -> Seq<u32> {
    Seq::new(b.len() / 4, |k: int| le_u32_at(b, 4 * k) as u32)
}

/// The 64-bit words of `b`, eight bytes each; a shorter tail is ignored.
pub open spec fn u64_words(b: Seq<u8>) -> Seq<u64> {
    Seq::new(b.len() / 8, |k: int| le_u64_at(b, 8 * k) as u64)
}

fn read_u32_le(b: &Vec<u8>, at: usize) -> (r: u32)
    requires
        at + 4 <= b@.len(),
    ensures
        r == le_u32_at(b@, at as int),
{
    let _n = b.len();
    b[at] as u32 + 0x100 * (b[at + 1] as u32) + 0x1_0000 * (b[at + 2] as u32) + 0x100_0000 * (
    b[at + 3] as u32)
}

fn read_u64_le(b: &Vec<u8>, at: usize) -> (r: u64)
    requires
        at + 8 <= b@.len(),
    ensures
        r == le_u64_at(b@, at as int),
{
    let _n = b.len();
    let low = read_u32_le(b, at) as u64;
    let high = read_u32_le(b, at + 4) as u64;
    low + 0x1_0000_0000 * high
}

/// Splits a face file into its little-endian 32-bit words.
pub fn generate_vec_u32_from_bytes(bytes: &Vec<u8>) -> (r: Vec<u32>)
    ensures
        r@ == u32_words(bytes@),
{
    let n: usize = bytes.len();
    let len = n / 4;
    let mut words: Vec<u32> = Vec::with_capacity(len);
    for i in 0..len
        invariant
            n == bytes@.len(),
            len == bytes@.len() / 4,
            words@.len() == i,
            forall|k: int| 0 <= k < i ==> words@[k] == u32_words(bytes@)[k],
    {
        assert(i * 4 + 4 <= bytes@.len()) by (nonlinear_arith)
            requires
                i < len,
                len == bytes@.len() / 4,
        ;
        words.push(read_u32_le(bytes, i * 4));
    }
    assert(words@ =~= u32_words(bytes@));
    words
}

/// Splits a node file into its little-endian 64-bit words, each the bit
/// pattern of one binary64 coordinate.
pub fn generate_vec_f64_bits_from_bytes(bytes: &Vec<u8>) -> (r: Vec<u64>)
    ensures
        r@ == u64_words(bytes@),
{
    let n: usize = bytes.len();
    let len = n / 8;
    let mut words: Vec<u64> = Vec::with_capacity(len);
    for i in 0..len
        invariant
            n == bytes@.len(),
            len == bytes@.len() / 8,
            words@.len() == i,
            forall|k: int| 0 <= k < i ==> words@[k] == u64_words(bytes@)[k],
    {
        assert(i * 8 + 8 <= bytes@.len()) by (nonlinear_arith)
            requires
                i < len,
                len == bytes@.len() / 8,
        ;
        words.push(read_u64_le(bytes, i * 8));
    }
    assert(words@ =~= u64_words(bytes@));
    words
}

} // verus!
