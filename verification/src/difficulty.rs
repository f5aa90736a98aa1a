use vstd::prelude::*;

verus! {

/// The big-endian value of the first four bytes of a hash.
pub open spec fn hash_prefix(hash: Seq<u8>) -> u32
    recommends
        hash.len() >= 4,
{
    (hash[0] as int * 0x1000000 + hash[1] as int * 0x10000 + hash[2] as int * 0x100
        + hash[3] as int) as u32
}

/// A hash meets a difficulty mask when it has at least four bytes and its
/// big-endian 32-bit prefix has no bit set outside the mask.
pub open spec fn meets_difficulty(hash: Seq<u8>, difficulty_mask: u32) -> bool {
    &&& hash.len() >= 4
    &&& hash_prefix(hash) & !difficulty_mask == 0
}

/// Decides whether `hash` satisfies `difficulty_mask`: the first four bytes,
/// read as a big-endian `u32`, may only have bits that the mask allows.
/// A hash shorter than four bytes never satisfies any mask.
pub fn hash_structure_good(hash: &[u8], difficulty_mask: u32) -> (good: bool)
    ensures
        good == meets_difficulty(hash@, difficulty_mask),
{
    if hash.len() < 4 {
        return false;
    }
    let b0 = hash[0];
    let b1 = hash[1];
    let b2 = hash[2];
    let b3 = hash[3];
    let prefix: u32 = ((b0 as u32) << 24u32) | ((b1 as u32) << 16u32) | ((b2 as u32) << 8u32)
        | (b3 as u32);
    assert(prefix == (b0 as int * 0x1000000 + b1 as int * 0x10000 + b2 as int * 0x100
        + b3 as int)) by (bit_vector)
        requires
            prefix == ((b0 as u32) << 24u32) | ((b1 as u32) << 16u32) | ((b2 as u32) << 8u32)
                | (b3 as u32),
    ;
    (prefix & !difficulty_mask) == 0
}

/// The prefix is the first four bytes read big-endian: byte 0 is its top
/// eight bits and byte 3 its bottom eight.
pub proof fn lemma_prefix_is_big_endian(hash: Seq<u8>)
    requires
        hash.len() >= 4,
    ensures
        hash_prefix(hash) >> 24u32 == hash[0] as u32,
        (hash_prefix(hash) >> 16u32) & 0xffu32 == hash[1] as u32,
        (hash_prefix(hash) >> 8u32) & 0xffu32 == hash[2] as u32,
        hash_prefix(hash) & 0xffu32 == hash[3] as u32,
{
    let b0 = hash[0];
    let b1 = hash[1];
    let b2 = hash[2];
    let b3 = hash[3];
    let p = hash_prefix(hash);
    assert(p == ((b0 as u32) << 24u32) | ((b1 as u32) << 16u32) | ((b2 as u32) << 8u32) | (b3 as u32)) by (bit_vector)
        requires
            p == (b0 as int * 0x1000000 + b1 as int * 0x10000 + b2 as int * 0x100 + b3 as int) as u32,
    ;
    assert(p >> 24u32 == b0 as u32 && (p >> 16u32) & 0xffu32 == b1 as u32 && (p >> 8u32) & 0xffu32
        == b2 as u32 && p & 0xffu32 == b3 as u32) by (bit_vector)
        requires
            p == ((b0 as u32) << 24u32) | ((b1 as u32) << 16u32) | ((b2 as u32) << 8u32) | (b3 as u32),
    ;
}

/// Widening a mask never rejects a hash it accepted: if every bit of `narrow`
/// is also in `wide`, a hash that meets `narrow` meets `wide`.
pub proof fn lemma_difficulty_monotone(hash: Seq<u8>, narrow: u32, wide: u32)
    requires
        meets_difficulty(hash, narrow),
        narrow & !wide == 0,
    ensures
        meets_difficulty(hash, wide),
{
    let p = hash_prefix(hash);
    assert(p & !narrow == 0 && narrow & !wide == 0 ==> p & !wide == 0) by (bit_vector);
}

/// The all-ones mask accepts every hash of at least four bytes, and the zero
/// mask accepts exactly the hashes whose first four bytes are zero.
pub proof fn lemma_extreme_masks(hash: Seq<u8>)
    requires
        hash.len() >= 4,
    ensures
        meets_difficulty(hash, 0xffff_ffffu32),
        meets_difficulty(hash, 0u32) <==> (hash[0] == 0 && hash[1] == 0 && hash[2] == 0
            && hash[3] == 0),
{
    let p = hash_prefix(hash);
    assert(p & !0xffff_ffffu32 == 0) by (bit_vector);
    assert(p & !0u32 == p) by (bit_vector);
}

/// A mask made of the low `32 - zeros` bits asks for `zeros` leading zero
/// bits: such a hash is accepted exactly when its prefix is below
/// `2^(32 - zeros)`.
pub proof fn lemma_leading_zero_mask(hash: Seq<u8>, zeros: u32)
    requires
        hash.len() >= 4,
        zeros <= 32,
    ensures
        meets_difficulty(hash, if zeros == 32 { 0u32 } else { 0xffff_ffffu32 >> zeros })
            <==> (hash_prefix(hash) as u64) < (1u64 << (32 - zeros) as u64),
{
    let p = hash_prefix(hash);
    if zeros == 32 {
        assert(p & !0u32 == p) by (bit_vector);
        assert((1u64 << 0u64) == 1) by (bit_vector);
    } else {
        assert(zeros < 32 ==> ((p & !(0xffff_ffffu32 >> zeros) == 0) <==> (p as u64) < (1u64
            << (32 - zeros) as u64))) by (bit_vector);
    }
}

/// Only the first four bytes of a hash decide whether it meets a mask.
pub proof fn lemma_only_prefix_matters(h1: Seq<u8>, h2: Seq<u8>, difficulty_mask: u32)
    requires
        h1.len() >= 4,
        h2.len() >= 4,
        h1.take(4) == h2.take(4),
    ensures
        meets_difficulty(h1, difficulty_mask) == meets_difficulty(h2, difficulty_mask),
{
    assert(h1[0] == h1.take(4)[0] && h1[1] == h1.take(4)[1] && h1[2] == h1.take(4)[2] && h1[3]
        == h1.take(4)[3]);
    assert(h2[0] == h2.take(4)[0] && h2[1] == h2.take(4)[1] && h2[2] == h2.take(4)[2] && h2[3]
        == h2.take(4)[3]);
}

} // verus!
