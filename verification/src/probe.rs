use vstd::prelude::*;
use vstd::bytes::{
    spec_u64_from_le_bytes, spec_u64_to_le_bytes, u64_from_le_bytes, u64_to_le_bytes,
};

use blake2::{Blake2b512, Digest};

verus! {

/// The BLAKE2b-512 digest of `data`, as the `blake2` crate computes it.
pub uninterp spec fn blake2b512(data: Seq<u8>) -> Seq<u8>;

/// Calls `Blake2b512::digest` of the `blake2` crate. The contract claims
/// that the digest is a function of the input bytes alone (named
/// `blake2b512`) and that it is 64 bytes long, the output size `U64` that
/// the crate's type `Blake2b512 = Blake2b<U64>` fixes.
#[verifier::external_body]
fn blake2b512_digest(data: &[u8]) -> (out: Vec<u8>)
    ensures
        out@ == blake2b512(data@),
        out@.len() == 64,
{
    Blake2b512::digest(data).to_vec()
}

/// The BLAKE2b-512 digest of `data`.
pub fn digest512(data: &[u8]) -> (out: Vec<u8>)
    ensures
        out@ == blake2b512(data@),
        out@.len() == 64,
{
    blake2b512_digest(data)
}

/// First source word of the BLAKE2b probe.
pub const PROBE_SRC1: u64 = 0x57aa_aa9e_896b_78ed;

/// Second source word of the BLAKE2b probe.
pub const PROBE_SRC2: u64 = 0xe8bc_b6fe_b065_ea96;

/// The digest word that the GPU kernel produced for the probe.
pub const PROBE_GPU_WORD: u64 = 0x5694_e711_0ab9_f4d3;

/// The digest word that the CPU trace showed for the probe.
pub const PROBE_CPU_WORD: u64 = 0x5555_698e_ee0f_baef;

/// The sixteen probe bytes: both words in little-endian order.
pub open spec fn spec_probe_input(src1: u64, src2: u64) -> Seq<u8> {
    spec_u64_to_le_bytes(src1) + spec_u64_to_le_bytes(src2)
}

/// Lays out two words as sixteen little-endian bytes, `src1` first.
pub fn probe_input(src1: u64, src2: u64) -> (out: Vec<u8>)
    ensures
        out@ == spec_probe_input(src1, src2),
        out@.len() == 16,
{
    let mut out = u64_to_le_bytes(src1);
    let mut tail = u64_to_le_bytes(src2);
    out.append(&mut tail);
    out
}

/// The `k`-th little-endian word of `bytes`.
pub open spec fn spec_word(bytes: Seq<u8>, k: int) -> u64 {
    spec_u64_from_le_bytes(bytes.subrange(8 * k, 8 * k + 8))
}

/// Reads `bytes` as little-endian 64-bit words, eight bytes each.
pub fn digest_words(bytes: &[u8]) -> (words: Vec<u64>)
    requires
        bytes@.len() % 8 == 0,
    ensures
        words@.len() == bytes@.len() / 8,
        forall|k: int| 0 <= k < words@.len() ==> #[trigger] words@[k] == spec_word(bytes@, k),
{
    let len = bytes.len();
    let n = len / 8;
    let mut words: Vec<u64> = Vec::new();
    let mut k: usize = 0;
    while k < n
        invariant
            k <= n,
            len == bytes@.len(),
            n == bytes@.len() / 8,
            bytes@.len() % 8 == 0,
            words@.len() == k,
            forall|q: int| 0 <= q < k ==> #[trigger] words@[q] == spec_word(bytes@, q),
        decreases n - k,
    {
        assert(8 * k + 8 <= bytes@.len()) by (nonlinear_arith)
            requires
                k < n,
                n == bytes@.len() / 8,
        ;
        let chunk = &bytes[8 * k..8 * k + 8];
        words.push(u64_from_le_bytes(chunk));
        k = k + 1;
    }
    words
}

/// The `v`-th little-endian word of a digest, or `None` past its end.
pub fn digest_word(digest: &[u8], v: usize) -> (r: Option<u64>)
    requires
        digest@.len() % 8 == 0,
    ensures
        r == (if v < digest@.len() / 8 {
            Some(spec_word(digest@, v as int))
        } else {
            None::<u64>
        }),
{
    if v < digest.len() / 8 {
        assert(8 * v + 8 <= digest@.len()) by (nonlinear_arith)
            requires
                v < digest@.len() / 8,
        ;
        let chunk = &digest[8 * v..8 * v + 8];
        Some(u64_from_le_bytes(chunk))
    } else {
        None
    }
}

/// Hashes the probe words with BLAKE2b-512 and returns word `v` of the
/// digest (`None` when `v >= 8`).
pub fn probe_word(src1: u64, src2: u64, v: usize) -> (r: Option<u64>)
    ensures
        r == (if v < 8 {
            Some(spec_word(blake2b512(spec_probe_input(src1, src2)), v as int))
        } else {
            None::<u64>
        }),
{
    let input = probe_input(src1, src2);
    let digest = blake2b512_digest(input.as_slice());
    digest_word(digest.as_slice(), v)
}

/// Which reference a probe word agrees with.
#[derive(Debug, Clone, Copy, PartialEq, Eq, Structural)]
pub enum ProbeMatch {
    /// The word the GPU kernel produced.
    Gpu,
    /// The word the CPU trace showed.
    CpuTrace,
    /// Neither reference.
    Neither,
}

/// Compares a probe word with the GPU word first, then the CPU-trace word.
pub fn classify_probe_word(word: u64) -> (m: ProbeMatch)
    ensures
        m == (if word == PROBE_GPU_WORD {
            ProbeMatch::Gpu
        } else if word == PROBE_CPU_WORD {
            ProbeMatch::CpuTrace
        } else {
            ProbeMatch::Neither
        }),
{
    if word == PROBE_GPU_WORD {
        ProbeMatch::Gpu
    } else if word == PROBE_CPU_WORD {
        ProbeMatch::CpuTrace
    } else {
        ProbeMatch::Neither
    }
}

/// Words are little-endian: byte `j` of word `k` holds bits `8j..8j+8`.
pub proof fn lemma_word_bytes(bytes: Seq<u8>, k: int, j: int)
    requires
        0 <= k,
        8 * k + 8 <= bytes.len(),
        0 <= j < 8,
    ensures
        (spec_word(bytes, k) >> ((8 * j) as u64)) & 0xff == bytes[8 * k + j],
{
    vstd::bytes::lemma_auto_spec_u64_to_from_le_bytes();
    let chunk = bytes.subrange(8 * k, 8 * k + 8);
    let x = spec_word(bytes, k);
    assert(spec_u64_to_le_bytes(spec_u64_from_le_bytes(chunk)) == chunk);
    vstd::bytes::spec_u64_to_le_bytes_to_open(x);
    let s = vstd::bytes::spec_u64_to_le_bytes_open(x);
    assert(s[j] == chunk[j]);
    assert(chunk[j] == bytes[8 * k + j]);
    assert(((x >> 0u64) & 0xff) == (x & 0xff)) by (bit_vector);
    assert(((x & 0xff) as u8) as u64 == x & 0xff) by (bit_vector);
    assert((((x >> 8u64) & 0xff) as u8) as u64 == (x >> 8u64) & 0xff) by (bit_vector);
    assert((((x >> 16u64) & 0xff) as u8) as u64 == (x >> 16u64) & 0xff) by (bit_vector);
    assert((((x >> 24u64) & 0xff) as u8) as u64 == (x >> 24u64) & 0xff) by (bit_vector);
    assert((((x >> 32u64) & 0xff) as u8) as u64 == (x >> 32u64) & 0xff) by (bit_vector);
    assert((((x >> 40u64) & 0xff) as u8) as u64 == (x >> 40u64) & 0xff) by (bit_vector);
    assert((((x >> 48u64) & 0xff) as u8) as u64 == (x >> 48u64) & 0xff) by (bit_vector);
    assert((((x >> 56u64) & 0xff) as u8) as u64 == (x >> 56u64) & 0xff) by (bit_vector);
}

/// The probe input is `src1` then `src2`, each least significant byte first.
pub proof fn lemma_probe_input_bytes(src1: u64, src2: u64, j: int)
    requires
        0 <= j < 8,
    ensures
        spec_probe_input(src1, src2).len() == 16,
        spec_probe_input(src1, src2)[j] as u64 == (src1 >> ((8 * j) as u64)) & 0xff,
        spec_probe_input(src1, src2)[8 + j] as u64 == (src2 >> ((8 * j) as u64)) & 0xff,
{
    lemma_probe_input_words(src1, src2);
    let s = spec_probe_input(src1, src2);
    vstd::bytes::lemma_auto_spec_u64_to_from_le_bytes();
    assert(s.len() == 16);
    lemma_word_bytes(s, 0, j);
    lemma_word_bytes(s, 1, j);
}

/// Reading back the words of a probe input gives the two source words.
pub proof fn lemma_probe_input_words(src1: u64, src2: u64)
    ensures
        spec_word(spec_probe_input(src1, src2), 0) == src1,
        spec_word(spec_probe_input(src1, src2), 1) == src2,
{
    vstd::bytes::lemma_auto_spec_u64_to_from_le_bytes();
    let s = spec_probe_input(src1, src2);
    assert(s.subrange(0, 8) =~= spec_u64_to_le_bytes(src1));
    assert(s.subrange(8, 16) =~= spec_u64_to_le_bytes(src2));
}

} // verus!
