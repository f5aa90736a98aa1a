use vstd::prelude::*;
use vstd::string::StringExecFns;
use vstd::string::StringSliceAdditionalSpecFns;

use crate::hex::{lemma_nonce_hex_round_trip, nonce_hex, spec_nonce_hex, spec_parse_hex, HexParseError};

verus! {

/// The challenge text that follows the nonce in every preimage: the six
/// challenge fields, one after another.
pub open spec fn spec_challenge_suffix(
    address: Seq<char>,
    challenge_id: Seq<char>,
    difficulty: Seq<char>,
    no_pre_mine: Seq<char>,
    latest_submission: Seq<char>,
    no_pre_mine_hour: Seq<char>,
) -> Seq<char> {
    address + challenge_id + difficulty + no_pre_mine + latest_submission + no_pre_mine_hour
}

/// Joins the six challenge fields into the suffix shared by all preimages.
pub fn challenge_suffix(
    address: &str,
    challenge_id: &str,
    difficulty: &str,
    no_pre_mine: &str,
    latest_submission: &str,
    no_pre_mine_hour: &str,
) -> (suffix: String)
    ensures
        suffix@ == spec_challenge_suffix(
            address@,
            challenge_id@,
            difficulty@,
            no_pre_mine@,
            latest_submission@,
            no_pre_mine_hour@,
        ),
{
    let mut suffix = String::from_str(address);
    suffix.append(challenge_id);
    suffix.append(difficulty);
    suffix.append(no_pre_mine);
    suffix.append(latest_submission);
    suffix.append(no_pre_mine_hour);
    suffix
}

/// The bytes that are hashed for `nonce`: its sixteen hex digits, then the
/// UTF-8 bytes of the challenge suffix.
pub open spec fn spec_preimage(nonce: u64, suffix: Seq<u8>) -> Seq<u8> {
    spec_nonce_hex(nonce) + suffix
}

/// Builds the preimage of `nonce` (`format!("{:016x}{}", nonce, suffix)` as bytes).
pub fn preimage(nonce: u64, suffix: &str) -> (out: Vec<u8>)
    ensures
        out@ == spec_preimage(nonce, suffix.spec_bytes()),
{
    let mut out = nonce_hex(nonce);
    let tail = suffix.as_bytes();
    let mut i: usize = 0;
    while i < tail.len()
        invariant
            i <= tail@.len(),
            out@ == spec_nonce_hex(nonce) + tail@.take(i as int),
        decreases tail@.len() - i,
    {
        out.push(tail[i]);
        assert(tail@.take(i + 1) =~= tail@.take(i as int).push(tail@[i as int]));
        i = i + 1;
    }
    assert(tail@.take(tail@.len() as int) =~= tail@);
    out
}

/// A preimage is the sixteen digits of the nonce followed by the whole
/// suffix, nothing dropped: its length is `16 + suffix.len()`, its first
/// sixteen bytes read back as the nonce, and from byte 16 on it is the suffix.
pub proof fn lemma_preimage_layout(nonce: u64, suffix: Seq<u8>)
    ensures
        spec_preimage(nonce, suffix).len() == 16 + suffix.len(),
        spec_parse_hex(spec_preimage(nonce, suffix).take(16), u64::MAX as int) == Ok::<
            int,
            HexParseError,
        >(nonce as int),
        spec_preimage(nonce, suffix).skip(16) == suffix,
        forall|i: int|
            0 <= i < suffix.len() ==> #[trigger] spec_preimage(nonce, suffix)[16 + i] == suffix[i],
{
    assert(spec_preimage(nonce, suffix).take(16) =~= spec_nonce_hex(nonce));
    assert(spec_preimage(nonce, suffix).skip(16) =~= suffix);
    lemma_nonce_hex_round_trip(nonce);
}

/// The suffix holds each of the six fields whole and in order: its length is
/// the sum of their lengths and each field sits right after the ones before.
pub proof fn lemma_challenge_suffix_fields(
    a: Seq<char>,
    b: Seq<char>,
    c: Seq<char>,
    d: Seq<char>,
    e: Seq<char>,
    f: Seq<char>,
)
    ensures
        ({
            let s = spec_challenge_suffix(a, b, c, d, e, f);
            let o1 = a.len() as int;
            let o2 = o1 + b.len();
            let o3 = o2 + c.len();
            let o4 = o3 + d.len();
            let o5 = o4 + e.len();
            &&& s.len() == o5 + f.len()
            &&& s.take(o1) == a
            &&& s.subrange(o1, o2) == b
            &&& s.subrange(o2, o3) == c
            &&& s.subrange(o3, o4) == d
            &&& s.subrange(o4, o5) == e
            &&& s.skip(o5) == f
        }),
{
    let s = spec_challenge_suffix(a, b, c, d, e, f);
    let o1 = a.len() as int;
    let o2 = o1 + b.len();
    let o3 = o2 + c.len();
    let o4 = o3 + d.len();
    let o5 = o4 + e.len();
    assert(s.take(o1) =~= a);
    assert(s.subrange(o1, o2) =~= b);
    assert(s.subrange(o2, o3) =~= c);
    assert(s.subrange(o3, o4) =~= d);
    assert(s.subrange(o4, o5) =~= e);
    assert(s.skip(o5) =~= f);
}

/// Different nonces are hashed on different inputs: two preimages with the
/// same suffix are equal only for the same nonce.
pub proof fn lemma_preimage_injective(n1: u64, n2: u64, suffix: Seq<u8>)
    requires
        spec_preimage(n1, suffix) == spec_preimage(n2, suffix),
    ensures
        n1 == n2,
{
    assert(spec_preimage(n1, suffix).take(16) =~= spec_nonce_hex(n1));
    assert(spec_preimage(n2, suffix).take(16) =~= spec_nonce_hex(n2));
    lemma_nonce_hex_round_trip(n1);
    lemma_nonce_hex_round_trip(n2);
}

} // verus!
