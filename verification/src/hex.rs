use vstd::prelude::*;
use vstd::string::StringSliceAdditionalSpecFns;

verus! {

/// The ASCII byte of a lowercase hex digit `d` (`0 <= d < 16`).
pub open spec fn hex_digit_byte(d: int) -> u8 {
    if d < 10 {
        (0x30 + d) as u8
    } else {
        (0x61 + d - 10) as u8
    }
}

/// Whether `c` is an ASCII hex digit, in either case.
pub open spec fn is_hex_digit(c: u8) -> bool {
    (0x30 <= c <= 0x39) || (0x61 <= c <= 0x66) || (0x41 <= c <= 0x46)
}

/// The value of an ASCII hex digit (0 for any other byte).
pub open spec fn hex_digit_value(c: u8) -> nat {
    if 0x30 <= c <= 0x39 {
        (c - 0x30) as nat
    } else if 0x61 <= c <= 0x66 {
        (c - 0x61 + 10) as nat
    } else if 0x41 <= c <= 0x46 {
        (c - 0x41 + 10) as nat
    } else {
        0
    }
}

/// Every byte of `s` is a hex digit.
pub open spec fn all_hex(s: Seq<u8>) -> bool {
    forall|i: int| 0 <= i < s.len() ==> #[trigger] is_hex_digit(s[i])
}

/// The number that the hex digits `s` spell, most significant first.
pub open spec fn hex_value(s: Seq<u8>) -> nat
    decreases s.len(),
{
    if s.len() == 0 {
        0
    } else {
        hex_value(s.drop_last()) * 16 + hex_digit_value(s.last())
    }
}

/// The `i`-th hex digit of `n`, counting from the most significant of 16.
pub open spec fn nonce_nibble(n: u64, i: int) -> int {
    ((n >> ((60 - 4 * i) as u64)) & 15u64) as int
}

/// `n` as exactly sixteen lowercase hex digits, zero-padded (`{:016x}`).
pub open spec fn spec_nonce_hex(n: u64) -> Seq<u8> {
    Seq::new(16, |i: int| hex_digit_byte(nonce_nibble(n, i)))
}

/// Why a hex number could not be read, in the order the digits are read.
#[derive(Debug, Clone, Copy, PartialEq, Eq, Structural)]
pub enum HexParseError {
    /// The text is empty.
    Empty,
    /// A byte is not a hex digit, or the text is a lone sign.
    InvalidDigit,
    /// The number does not fit the target type.
    PosOverflow,
}

/// The digits of a numeral: a single leading `+` is dropped.
pub open spec fn hex_digits_of(s: Seq<u8>) -> Seq<u8> {
    if s.len() > 0 && s[0] == 0x2b {
        s.drop_first()
    } else {
        s
    }
}

/// Some prefix of valid digits already spells a number above `max`.
pub open spec fn hex_overflows(d: Seq<u8>, max: int) -> bool {
    exists|k: int| 0 <= k <= d.len() && all_hex(#[trigger] d.take(k)) && hex_value(d.take(k)) > max
}

/// Reading `s` as an unsigned base-16 number bounded by `max`, digit by
/// digit from the left: an empty text or a lone sign is refused; an overflow
/// is reported when the digits read so far exceed `max`, an invalid digit
/// when it comes before any overflow.
pub open spec fn spec_parse_hex(s: Seq<u8>, max: int) -> Result<int, HexParseError> {
    if s.len() == 0 {
        Err(HexParseError::Empty)
    } else if s.len() == 1 && (s[0] == 0x2b || s[0] == 0x2d) {
        Err(HexParseError::InvalidDigit)
    } else {
        let d = hex_digits_of(s);
        if hex_overflows(d, max) {
            Err(HexParseError::PosOverflow)
        } else if !all_hex(d) {
            Err(HexParseError::InvalidDigit)
        } else {
            Ok(hex_value(d) as int)
        }
    }
}

/// Reading more valid digits never makes the number smaller.
pub proof fn lemma_hex_value_monotone(d: Seq<u8>, k: int, j: int)
    requires
        0 <= k <= j <= d.len(),
        all_hex(d.take(j)),
    ensures
        hex_value(d.take(k)) <= hex_value(d.take(j)),
    decreases j - k,
{
    if k < j {
        assert(d.take(j).drop_last() =~= d.take(j - 1));
        assert(all_hex(d.take(j - 1))) by {
            assert forall|i: int| 0 <= i < d.take(j - 1).len() implies #[trigger] is_hex_digit(
                d.take(j - 1)[i],
            ) by {
                assert(d.take(j - 1)[i] == d.take(j)[i]);
            }
        }
        lemma_hex_value_monotone(d, k, j - 1);
    }
}

/// A one-byte text: a digit reads as its value (an overflow when that is
/// above `max`), any other byte, a sign included, is an invalid digit; and a
/// leading `+` before it changes nothing.
pub proof fn lemma_parse_hex_single(c: u8, max: int)
    requires
        max >= 0,
    ensures
        spec_parse_hex(seq![c], max) == (if !is_hex_digit(c) {
            Err::<int, HexParseError>(HexParseError::InvalidDigit)
        } else if hex_digit_value(c) > max {
            Err::<int, HexParseError>(HexParseError::PosOverflow)
        } else {
            Ok::<int, HexParseError>(hex_digit_value(c) as int)
        }),
        spec_parse_hex(seq![0x2bu8, c], max) == spec_parse_hex(seq![c], max),
{
    let d = seq![c];
    assert(d.drop_last() =~= Seq::<u8>::empty());
    assert(d.take(1) =~= d);
    assert(d.take(0) =~= Seq::<u8>::empty());
    assert(hex_value(d) == hex_digit_value(c));
    if is_hex_digit(c) {
        assert(all_hex(d));
        if hex_digit_value(c) > max {
            assert(all_hex(d.take(1)) && hex_value(d.take(1)) > max);
        } else {
            assert forall|k: int| 0 <= k <= d.len() && all_hex(#[trigger] d.take(k)) implies hex_value(
                d.take(k),
            ) <= max by {
                if k == 0 {
                } else {
                }
            }
        }
    } else {
        assert(!all_hex(d.take(1)));
        assert forall|k: int| 0 <= k <= d.len() && all_hex(#[trigger] d.take(k)) implies hex_value(
            d.take(k),
        ) <= max by {
            if k == 1 {
                assert(!all_hex(d.take(1)));
            }
        }
    }
    let p = seq![0x2bu8, c];
    assert(hex_digits_of(p) =~= d);
}

/// Reading one more byte: after a number `v`, a digit `c` gives `16 * v +`
/// its value (an overflow when that is above `max`) and any other byte an
/// invalid digit; an error, once reported, stays.
pub proof fn lemma_parse_hex_push(s: Seq<u8>, c: u8, max: int)
    requires
        s.len() > 0,
        !(s.len() == 1 && (s[0] == 0x2b || s[0] == 0x2d)),
    ensures
        spec_parse_hex(s.push(c), max) == (match spec_parse_hex(s, max) {
            Ok(v) => if !is_hex_digit(c) {
                Err::<int, HexParseError>(HexParseError::InvalidDigit)
            } else if 16 * v + hex_digit_value(c) > max {
                Err::<int, HexParseError>(HexParseError::PosOverflow)
            } else {
                Ok::<int, HexParseError>(16 * v + hex_digit_value(c))
            },
            Err(e) => Err::<int, HexParseError>(e),
        }),
{
    let d = hex_digits_of(s);
    let d2 = hex_digits_of(s.push(c));
    assert(d2 =~= d.push(c));
    let n = d.len() as int;
    assert(d2.take(n + 1) =~= d2);
    assert(d2.drop_last() =~= d);
    assert forall|k: int| 0 <= k <= n implies #[trigger] d2.take(k) == d.take(k) by {
        assert(d2.take(k) =~= d.take(k));
    }
    assert(all_hex(d2) <==> all_hex(d) && is_hex_digit(c)) by {
        if all_hex(d2) {
            assert forall|i: int| 0 <= i < d.len() implies #[trigger] is_hex_digit(d[i]) by {
                assert(d2[i] == d[i]);
            }
            assert(d2[n] == c);
        }
        if all_hex(d) && is_hex_digit(c) {
            assert forall|i: int| 0 <= i < d2.len() implies #[trigger] is_hex_digit(d2[i]) by {
                if i < n {
                    assert(d2[i] == d[i]);
                }
            }
        }
    }
    assert(hex_value(d2) == hex_value(d) * 16 + hex_digit_value(c));
    if hex_overflows(d, max) {
        let k = choose|k: int|
            0 <= k <= d.len() && all_hex(#[trigger] d.take(k)) && hex_value(d.take(k)) > max;
        assert(d2.take(k) == d.take(k));
        assert(hex_overflows(d2, max));
    } else {
        assert(d.take(n) =~= d);
        assert(hex_overflows(d2, max) <==> (all_hex(d2) && hex_value(d2) > max)) by {
            if hex_overflows(d2, max) {
                let k = choose|k: int|
                    0 <= k <= d2.len() && all_hex(#[trigger] d2.take(k)) && hex_value(d2.take(k))
                        > max;
                if k <= n {
                    assert(d2.take(k) == d.take(k));
                } else {
                    assert(k == n + 1);
                }
            }
            if all_hex(d2) && hex_value(d2) > max {
                assert(all_hex(d2.take(n + 1)) && hex_value(d2.take(n + 1)) > max);
            }
        }
    }
}

fn hex_digit_of(c: u8) -> (r: Option<u8>)
    ensures
        r matches Some(v) ==> is_hex_digit(c) && v as int == hex_digit_value(c) && v < 16,
        r is None ==> !is_hex_digit(c),
{
    if 0x30 <= c && c <= 0x39 {
        Some(c - 0x30)
    } else if 0x61 <= c && c <= 0x66 {
        Some(c - 0x61 + 10)
    } else if 0x41 <= c && c <= 0x46 {
        Some(c - 0x41 + 10)
    } else {
        None
    }
}

/// Reads `bytes` as a base-16 number of at most `max`, with the same
/// outcome, error kinds and error order as `from_str_radix(_, 16)` of an
/// unsigned type whose largest value is `max`.
pub fn parse_hex_bounded(bytes: &[u8], max: u64) -> (r: Result<u64, HexParseError>)
    ensures
        match spec_parse_hex(bytes@, max as int) {
            Ok(v) => r == Ok::<u64, HexParseError>(v as u64),
            Err(e) => r == Err::<u64, HexParseError>(e),
        },
{
    let len = bytes.len();
    if len == 0 {
        return Err(HexParseError::Empty);
    }
    if len == 1 && (bytes[0] == 0x2b || bytes[0] == 0x2d) {
        return Err(HexParseError::InvalidDigit);
    }
    let start: usize = if bytes[0] == 0x2b { 1 } else { 0 };
    let ghost d = hex_digits_of(bytes@);
    assert(d =~= bytes@.skip(start as int));
    let mut acc: u128 = 0;
    let mut i: usize = start;
    assert(d.take(0) =~= Seq::<u8>::empty());
    while i < len
        invariant
            start <= i <= len,
            len == bytes@.len(),
            d == bytes@.skip(start as int),
            d == hex_digits_of(bytes@),
            len > 0,
            !(len == 1 && (bytes@[0] == 0x2b || bytes@[0] == 0x2d)),
            all_hex(d.take(i - start)),
            acc as int == hex_value(d.take(i - start)),
            acc <= max,
        decreases len - i,
    {
        let ghost j = i - start;
        assert(d[j] == bytes@[i as int]);
        match hex_digit_of(bytes[i]) {
            None => {
                proof {
                    assert(!all_hex(d));
                    assert forall|k: int|
                        0 <= k <= d.len() && all_hex(#[trigger] d.take(k)) implies hex_value(
                        d.take(k),
                    ) <= max by {
                        if k > j {
                            assert(d.take(k)[j] == d[j]);
                        }
                        lemma_hex_value_monotone(d, k, j);
                    }
                }
                return Err(HexParseError::InvalidDigit);
            },
            Some(v) => {
                let next = acc * 16 + v as u128;
                proof {
                    assert(d.take(j + 1).drop_last() =~= d.take(j));
                    assert(d.take(j + 1).last() == d[j]);
                    assert forall|k: int| 0 <= k < d.take(j + 1).len() implies #[trigger] is_hex_digit(
                        d.take(j + 1)[k],
                    ) by {
                        if k < j {
                            assert(d.take(j + 1)[k] == d.take(j)[k]);
                        }
                    }
                }
                if next > max as u128 {
                    assert(all_hex(d.take(j + 1)) && hex_value(d.take(j + 1)) > max);
                    return Err(HexParseError::PosOverflow);
                }
                acc = next;
                i = i + 1;
            },
        }
    }
    proof {
        assert(d.take(d.len() as int) =~= d);
        assert forall|k: int|
            0 <= k <= d.len() && all_hex(#[trigger] d.take(k)) implies hex_value(d.take(k))
            <= max by {
            lemma_hex_value_monotone(d, k, d.len() as int);
        }
    }
    Ok(acc as u64)
}

/// Reads a base-16 `u32`, as `u32::from_str_radix(s, 16)` does.
pub fn parse_hex_u32(s: &str) -> (r: Result<u32, HexParseError>)
    ensures
        match spec_parse_hex(s.spec_bytes(), u32::MAX as int) {
            Ok(v) => r == Ok::<u32, HexParseError>(v as u32),
            Err(e) => r == Err::<u32, HexParseError>(e),
        },
{
    match parse_hex_bounded(s.as_bytes(), u32::MAX as u64) {
        Ok(v) => Ok(v as u32),
        Err(e) => Err(e),
    }
}

/// Reads a base-16 `u64`, as `u64::from_str_radix(s, 16)` does.
pub fn parse_hex_u64(s: &str) -> (r: Result<u64, HexParseError>)
    ensures
        match spec_parse_hex(s.spec_bytes(), u64::MAX as int) {
            Ok(v) => r == Ok::<u64, HexParseError>(v as u64),
            Err(e) => r == Err::<u64, HexParseError>(e),
        },
{
    parse_hex_bounded(s.as_bytes(), u64::MAX)
}

/// Writes `nonce` as sixteen lowercase hex digits, zero-padded on the left
/// (the `{:016x}` form).
pub fn nonce_hex(nonce: u64) -> (out: Vec<u8>)
    ensures
        out@ == spec_nonce_hex(nonce),
{
    let mut out: Vec<u8> = Vec::with_capacity(16);
    let mut i: u64 = 0;
    while i < 16
        invariant
            i <= 16,
            out@.len() == i,
            forall|k: int| 0 <= k < i ==> out@[k] == hex_digit_byte(#[trigger] nonce_nibble(nonce, k)),
        decreases 16 - i,
    {
        let shift: u64 = 60 - 4 * i;
        let nib: u64 = (nonce >> shift) & 15;
        assert(nib < 16) by (bit_vector)
            requires
                nib == (nonce >> shift) & 15,
        ;
        let b: u8 = if nib < 10 {
            0x30 + nib as u8
        } else {
            0x61 + (nib as u8 - 10)
        };
        assert(nib as int == nonce_nibble(nonce, i as int));
        out.push(b);
        i = i + 1;
    }
    assert(out@ =~= spec_nonce_hex(nonce));
    out
}

proof fn lemma_nibble_step(x: u64, s: u64)
    requires
        s <= 60,
    ensures
        (x >> ((s + 4) as u64)) * 16 + ((x >> s) & 15) == x >> s,
{
    assert(s <= 60 ==> (x >> ((s + 4) as u64)) * 16 + ((x >> s) & 15) == x >> s) by (bit_vector);
}

/// Hex digits are read case-insensitively with their usual values: `0`-`9`
/// are 0 to 9, and both `a`-`f` and `A`-`F` are 10 to 15; no other byte is a
/// digit.
pub proof fn lemma_hex_digit_values(c: u8, k: int)
    ensures
        0 <= k < 10 ==> is_hex_digit((0x30 + k) as u8) && hex_digit_value((0x30 + k) as u8) == k,
        0 <= k < 6 ==> is_hex_digit((0x61 + k) as u8) && hex_digit_value((0x61 + k) as u8) == 10
            + k,
        0 <= k < 6 ==> is_hex_digit((0x41 + k) as u8) && hex_digit_value((0x41 + k) as u8) == 10
            + k,
        0x41 <= c <= 0x46 ==> hex_digit_value(c) == hex_digit_value((c + 0x20) as u8),
        is_hex_digit(c) <==> (0x30 <= c <= 0x39 || 0x61 <= c <= 0x66 || 0x41 <= c <= 0x46),
        is_hex_digit(c) ==> hex_digit_value(c) < 16,
{
}

/// The sixteen digits of a nonce are lowercase hex digits, and each is the
/// matching four bits of the nonce, most significant first.
pub proof fn lemma_nonce_hex_digits(n: u64, i: int)
    requires
        0 <= i < 16,
    ensures
        spec_nonce_hex(n).len() == 16,
        (0x30 <= spec_nonce_hex(n)[i] <= 0x39) || (0x61 <= spec_nonce_hex(n)[i] <= 0x66),
        hex_digit_value(spec_nonce_hex(n)[i]) == (n as int / pow16(15 - i)) % 16,
{
    let s = (60 - 4 * i) as u64;
    assert(((n >> s) & 15u64) < 16) by (bit_vector);
    lemma_shift_is_div_pow16(n, 15 - i);
}

/// `16^e`.
pub open spec fn pow16(e: int) -> int
    decreases e,
{
    if e <= 0 {
        1
    } else {
        16 * pow16(e - 1)
    }
}

proof fn lemma_shift_is_div_pow16(n: u64, e: int)
    requires
        0 <= e < 16,
    ensures
        ((n >> ((4 * e) as u64)) & 15u64) as int == (n as int / pow16(e)) % 16,
    decreases e,
{
    vstd::arithmetic::power2::lemma2_to64();
    vstd::bits::lemma_u64_shr_is_div(n, (4 * e) as u64);
    lemma_pow16_is_pow2(e);
    let q = n >> ((4 * e) as u64);
    assert(q & 15u64 == q % 16) by (bit_vector);
}

proof fn lemma_pow16_is_pow2(e: int)
    requires
        0 <= e < 16,
    ensures
        pow16(e) == vstd::arithmetic::power2::pow2((4 * e) as nat),
    decreases e,
{
    if e > 0 {
        lemma_pow16_is_pow2(e - 1);
        vstd::arithmetic::power2::lemma_pow2_adds((4 * (e - 1)) as nat, 4);
        vstd::arithmetic::power2::lemma2_to64();
    } else {
        vstd::arithmetic::power2::lemma2_to64();
    }
}

proof fn lemma_hex_digit_byte_value(d: int)
    requires
        0 <= d < 16,
    ensures
        is_hex_digit(hex_digit_byte(d)),
        hex_digit_value(hex_digit_byte(d)) == d,
        hex_digit_byte(d) != 0x2b,
{
}

proof fn lemma_nonce_hex_prefix_value(n: u64, k: int)
    requires
        1 <= k <= 16,
    ensures
        all_hex(spec_nonce_hex(n).take(k)),
        hex_value(spec_nonce_hex(n).take(k)) == (n >> ((64 - 4 * k) as u64)) as nat,
    decreases k,
{
    let h = spec_nonce_hex(n);
    let s = (64 - 4 * k) as u64;
    assert(nonce_nibble(n, k - 1) == ((n >> s) & 15u64) as int);
    assert(((n >> s) & 15u64) < 16) by (bit_vector);
    lemma_hex_digit_byte_value(nonce_nibble(n, k - 1));
    assert(h.take(k).drop_last() =~= h.take(k - 1));
    assert(h.take(k).last() == h[k - 1]);
    assert(hex_value(h.take(k)) == hex_value(h.take(k - 1)) * 16 + hex_digit_value(h[k - 1]));
    assert(hex_digit_value(h[k - 1]) == ((n >> s) & 15u64));
    if k == 1 {
        assert(h.take(0) =~= Seq::<u8>::empty());
        assert((n >> 60u64) & 15u64 == n >> 60u64) by (bit_vector);
        assert(s == 60);
        assert forall|i: int| 0 <= i < h.take(k).len() implies #[trigger] is_hex_digit(
            h.take(k)[i],
        ) by {}
    } else {
        lemma_nonce_hex_prefix_value(n, k - 1);
        lemma_nibble_step(n, s);
        assert(((s + 4) as u64) == (64 - 4 * (k - 1)) as u64);
        assert forall|i: int| 0 <= i < h.take(k).len() implies #[trigger] is_hex_digit(
            h.take(k)[i],
        ) by {
            if i < k - 1 {
                assert(h.take(k)[i] == h.take(k - 1)[i]);
            }
        }
    }
}

/// Reading back the sixteen hex digits of a nonce gives the nonce: the
/// nonce printed by the solver is the one passed back to it.
pub proof fn lemma_nonce_hex_round_trip(n: u64)
    ensures
        spec_parse_hex(spec_nonce_hex(n), u64::MAX as int) == Ok::<int, HexParseError>(n as int),
{
    let h = spec_nonce_hex(n);
    lemma_nonce_hex_prefix_value(n, 16);
    assert(h.take(16) =~= h);
    assert(n >> 0u64 == n) by (bit_vector);
    assert(((n >> 60u64) & 15u64) < 16) by (bit_vector);
    assert(nonce_nibble(n, 0) == ((n >> 60u64) & 15u64) as int);
    lemma_hex_digit_byte_value(nonce_nibble(n, 0));
    assert(hex_digits_of(h) == h);
    assert forall|k: int| 0 <= k <= h.len() && all_hex(#[trigger] h.take(k)) implies hex_value(
        h.take(k),
    ) <= u64::MAX by {
        lemma_hex_value_monotone(h, k, 16);
    }
}

/// The lowercase hex character of a digit `d` (`0 <= d < 16`).
pub open spec fn hex_lower_char(d: int) -> char {
    if d < 10 {
        (0x30 + d) as char
    } else {
        (0x61 + d - 10) as char
    }
}

/// Each byte as two lowercase hex characters, high nibble first.
pub open spec fn spec_hex_encode(data: Seq<u8>) -> Seq<char>
    decreases data.len(),
{
    if data.len() == 0 {
        Seq::empty()
    } else {
        spec_hex_encode(data.drop_last()) + seq![
            hex_lower_char(data.last() as int / 16),
            hex_lower_char(data.last() as int % 16),
        ]
    }
}

/// Encoding a concatenation encodes each part in turn.
pub proof fn lemma_hex_encode_concat(a: Seq<u8>, b: Seq<u8>)
    ensures
        spec_hex_encode(a + b) == spec_hex_encode(a) + spec_hex_encode(b),
    decreases b.len(),
{
    if b.len() == 0 {
        assert(a + b =~= a);
        assert(spec_hex_encode(b) =~= Seq::<char>::empty());
        assert(spec_hex_encode(a) + spec_hex_encode(b) =~= spec_hex_encode(a));
    } else {
        let b0 = b.drop_last();
        lemma_hex_encode_concat(a, b0);
        assert((a + b).drop_last() =~= a + b0);
        assert((a + b).last() == b.last());
        let pair = seq![hex_lower_char(b.last() as int / 16), hex_lower_char(b.last() as int % 16)];
        assert(spec_hex_encode(a + b) == spec_hex_encode(a + b0) + pair);
        assert(spec_hex_encode(b) == spec_hex_encode(b0) + pair);
        assert(spec_hex_encode(a) + spec_hex_encode(b0) + pair =~= spec_hex_encode(a) + (
        spec_hex_encode(b0) + pair));
    }
}

proof fn lemma_hex_encode_len(data: Seq<u8>)
    ensures
        spec_hex_encode(data).len() == 2 * data.len(),
    decreases data.len(),
{
    if data.len() > 0 {
        lemma_hex_encode_len(data.drop_last());
    }
}

/// Every byte becomes two characters, and the short form of a hash is the
/// start of its full form.
pub proof fn lemma_hex_encode_shape(data: Seq<u8>, n: int)
    requires
        0 <= n <= data.len(),
    ensures
        spec_hex_encode(data).len() == 2 * data.len(),
        spec_hex_encode(data).take(2 * n) == spec_hex_encode(data.take(n)),
{
    lemma_hex_encode_len(data);
    lemma_hex_encode_len(data.take(n));
    lemma_hex_encode_concat(data.take(n), data.skip(n));
    assert(data.take(n) + data.skip(n) =~= data);
    assert(spec_hex_encode(data).take(2 * n) =~= spec_hex_encode(data.take(n)));
}

/// The value of a lowercase hex character (`0`-`9`, `a`-`f`), or -1.
pub open spec fn lower_hex_char_value(c: char) -> int {
    if '0' <= c <= '9' {
        c as int - 0x30
    } else if 'a' <= c <= 'f' {
        c as int - 0x61 + 10
    } else {
        -1
    }
}

/// The text of `data` decodes back to `data`: characters `2i` and `2i + 1`
/// are lowercase hex digits whose values are the high and low four bits of
/// byte `i`.
pub proof fn lemma_hex_encode_decodes(data: Seq<u8>, i: int)
    requires
        0 <= i < data.len(),
    ensures
        spec_hex_encode(data).len() == 2 * data.len(),
        lower_hex_char_value(spec_hex_encode(data)[2 * i]) == data[i] as int / 16,
        lower_hex_char_value(spec_hex_encode(data)[2 * i + 1]) == data[i] as int % 16,
    decreases data.len(),
{
    lemma_hex_encode_len(data);
    let init = data.drop_last();
    lemma_hex_encode_len(init);
    if i < data.len() - 1 {
        lemma_hex_encode_decodes(init, i);
        assert(spec_hex_encode(data)[2 * i] == spec_hex_encode(init)[2 * i]);
        assert(spec_hex_encode(data)[2 * i + 1] == spec_hex_encode(init)[2 * i + 1]);
        assert(init[i] == data[i]);
    } else {
        let b = data.last() as int;
        assert(spec_hex_encode(data)[2 * i] == hex_lower_char(b / 16));
        assert(spec_hex_encode(data)[2 * i + 1] == hex_lower_char(b % 16));
    }
}

/// Calls `hex::encode`, which writes each byte as two lowercase hex
/// characters, high nibble first (table `0123456789abcdef` in the crate's
/// source); the contract states exactly that.
#[verifier::external_body]
fn hex_encode(data: &[u8]) -> (s: String)
    ensures
        s@ == spec_hex_encode(data@),
{
    hex::encode(data)
}

/// Lowercase hex text of `data`, two characters per byte.
pub fn encode_hex(data: &[u8]) -> (s: String)
    ensures
        s@ == spec_hex_encode(data@),
{
    hex_encode(data)
}

/// Lowercase hex text of the first eight bytes of a hash, the short form a
/// hash is shown in.
pub fn hash_hex_prefix(hash: &[u8]) -> (s: String)
    requires
        hash@.len() >= 8,
    ensures
        s@ == spec_hex_encode(hash@.take(8)),
{
    let head = &hash[0..8];
    assert(head@ =~= hash@.take(8));
    hex_encode(head)
}

} // verus!
