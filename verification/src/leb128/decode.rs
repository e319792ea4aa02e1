use vstd::arithmetic::power2::{lemma_pow2_adds, lemma_pow2_pos, pow2};
use vstd::bits::lemma_u32_shl_is_mul;
use vstd::prelude::*;

verus! {

/// Set on every byte of an encoding except its last.
pub const CONTINUATION_BIT: u8 = 0x80;

/// The sign bit inside the low seven payload bits of a byte.
pub const SIGN_BIT: u8 = 0x40;

/// A varint decode failure.
#[derive(Debug, Clone, Copy, PartialEq, Eq, Structural)]
pub enum Error {
    /// The stream ended inside an encoding.
    IoError,
    /// The number being read is larger than can be represented.
    Overflow,
}

/// The low seven payload bits of one encoded byte.
pub fn low_bits_of_byte(byte: u8) -> (r: u8)
    ensures
        r == low7(byte),
{
    proof {
        assert(byte & !0x80u8 == byte & 0x7f) by (bit_vector);
    }
    byte & !CONTINUATION_BIT
}

/// True when a byte announces a following byte of the same encoding.
pub open spec fn has_cont(b: u8) -> bool {
    b & 0x80 != 0
}

/// The low seven payload bits of a byte.
pub open spec fn low7(b: u8) -> u8 {
    b & 0x7f
}

/// The unsigned value of an LEB128 byte sequence, least-significant byte
/// first, ignoring continuation bits.
pub open spec fn uleb_val(s: Seq<u8>) -> nat
    decreases s.len(),
{
    if s.len() == 0 {
        0
    } else {
        low7(s[0]) as nat + 128 * uleb_val(s.drop_first())
    }
}

/// The unsigned 32-bit decoder accepts exactly the `n` bytes of `s` at `pos`:
/// an encoding of at most five bytes whose last byte alone lacks the
/// continuation bit, a fifth byte contributing only bits below bit 32.
pub open spec fn uleb32_len_at(s: Seq<u8>, pos: int, n: int) -> bool {
    &&& 1 <= n <= 5
    &&& 0 <= pos
    &&& pos + n <= s.len()
    &&& !has_cont(s[pos + n - 1])
    &&& (forall|i: int| 0 <= i < n - 1 ==> has_cont(#[trigger] s[pos + i]))
    &&& (n == 5 ==> s[pos + 4] <= 0x0f)
}

/// The unsigned 32-bit decoder reports `Overflow` at `pos`: four continuation
/// bytes, a fifth byte wider than bit 31, and the encoding still ends within
/// the stream (the decoder drains it to a byte boundary).
pub open spec fn uleb32_overflow_at(s: Seq<u8>, pos: int) -> bool {
    &&& 0 <= pos
    &&& pos + 5 <= s.len()
    &&& (forall|i: int| 0 <= i < 4 ==> has_cont(#[trigger] s[pos + i]))
    &&& s[pos + 4] > 0x0f
    &&& (exists|j: int| pos + 4 <= j < s.len() && !has_cont(#[trigger] s[j]))
}

/// `uleb_val` of a sequence extended by one byte grows by that byte's
/// payload at the next 7-bit position.
pub proof fn lemma_uleb_val_snoc(s: Seq<u8>, b: u8)
    ensures
        uleb_val(s.push(b)) == uleb_val(s) + low7(b) as nat * pow2(7 * s.len()),
    decreases s.len(),
{
    if s.len() == 0 {
        assert(s.push(b) =~= seq![b]);
        assert(uleb_val(seq![b]) == low7(b) as nat + 128 * uleb_val(seq![b].drop_first()));
        assert(seq![b].drop_first() =~= Seq::<u8>::empty());
        assert(pow2(0) == 1) by {
            vstd::arithmetic::power2::lemma2_to64();
        }
    } else {
        assert(s.push(b).drop_first() =~= s.drop_first().push(b));
        lemma_uleb_val_snoc(s.drop_first(), b);
        lemma_pow2_adds(7, 7 * (s.len() - 1) as nat);
        assert(uleb_val(s.push(b)) == low7(s[0]) as nat + 128 * uleb_val(s.drop_first().push(b)));
        assert(128 * (uleb_val(s.drop_first()) + low7(b) as nat * pow2(7 * (s.len() - 1) as nat))
            == 128 * uleb_val(s.drop_first()) + low7(b) as nat * (128 * pow2(
            7 * (s.len() - 1) as nat,
        ))) by (nonlinear_arith);
        assert(pow2(7) == 128) by {
            vstd::arithmetic::power2::lemma2_to64();
        }
        assert(7 * s.len() == 7 + 7 * (s.len() - 1));
    }
}

/// The value of an encoding is bounded by the width of its payload.
pub proof fn lemma_uleb_val_bound(s: Seq<u8>)
    ensures
        uleb_val(s) < pow2(7 * s.len()),
    decreases s.len(),
{
    if s.len() == 0 {
        assert(pow2(0) == 1) by {
            vstd::arithmetic::power2::lemma2_to64();
        }
    } else {
        lemma_uleb_val_bound(s.drop_first());
        lemma_pow2_adds(7, 7 * (s.len() - 1) as nat);
        assert(pow2(7) == 128) by {
            vstd::arithmetic::power2::lemma2_to64();
        }
        let b0 = s[0];
        assert(low7(b0) < 128) by (bit_vector);
        assert(128 * uleb_val(s.drop_first()) + 128 <= 128 * pow2(7 * (s.len() - 1) as nat))
            by (nonlinear_arith)
            requires
                uleb_val(s.drop_first()) < pow2(7 * (s.len() - 1) as nat),
        ;
        assert(7 * s.len() == 7 + 7 * (s.len() - 1));
    }
}

/// Oring a fresh 7-bit payload above `shift` bits already accumulated adds
/// its shifted value, with no overflow.
proof fn lemma_or_accumulate(acc: u32, low: u32, shift: u32)
    requires
        shift <= 28,
        shift % 7 == 0,
        low <= 0x7f,
        shift == 28 ==> low <= 0x0f,
        acc < pow2(shift as nat),
    ensures
        low as nat * pow2(shift as nat) + acc < 0x1_0000_0000,
        (acc | (low << shift)) == acc + low as nat * pow2(shift as nat),
        acc + low as nat * pow2(shift as nat) < pow2(shift as nat + 7),
{
    lemma_pow2_pos(shift as nat);
    lemma_pow2_adds(shift as nat, 7);
    assert(pow2(7) == 128 && pow2(28) == 0x1000_0000 && pow2(32) == 0x1_0000_0000 && pow2(35)
        == 0x8_0000_0000) by {
        vstd::arithmetic::power2::lemma2_to64();
        vstd::arithmetic::power2::lemma2_to64_rest();
    }
    assert(acc + low * pow2(shift as nat) < 128 * pow2(shift as nat)) by (nonlinear_arith)
        requires
            low <= 0x7f,
            acc < pow2(shift as nat),
    ;
    if shift == 28 {
        assert(acc + low * pow2(28) < 16 * pow2(28)) by (nonlinear_arith)
            requires
                low <= 0x0f,
                acc < pow2(28),
        ;
    } else {
        assert(shift + 7 < 32);
        vstd::arithmetic::power2::lemma_pow2_strictly_increases((shift + 7) as nat, 32);
    }
    lemma_u32_shl_is_mul(low, shift);
    lemma_u32_shl_is_mul(1u32, shift);
    let shifted = (low << shift) as u32;
    assert(shifted == low as nat * pow2(shift as nat));
    assert(shifted % (1u32 << shift) == 0 ==> (acc | shifted) == acc + shifted) by (bit_vector)
        requires
            acc < (1u32 << shift),
            shift < 32,
    ;
    assert(shifted % (1u32 << shift) == 0) by {
        vstd::arithmetic::div_mod::lemma_mod_multiples_basic(
            low as int,
            pow2(shift as nat) as int,
        );
    }
}

/// The unsigned decoder accepts at most one prefix length at a position.
pub proof fn lemma_uleb32_len_unique(s: Seq<u8>, pos: int, n1: int, n2: int)
    requires
        uleb32_len_at(s, pos, n1),
        uleb32_len_at(s, pos, n2),
    ensures
        n1 == n2,
{
    if n1 < n2 {
        assert(has_cont(s[pos + (n1 - 1)]));
    }
    if n2 < n1 {
        assert(has_cont(s[pos + (n2 - 1)]));
    }
}

/// The signed decoder accepts at most one prefix length at a position.
pub proof fn lemma_sleb32_len_unique(s: Seq<u8>, pos: int, n1: int, n2: int)
    requires
        sleb32_len_at(s, pos, n1),
        sleb32_len_at(s, pos, n2),
    ensures
        n1 == n2,
{
    if n1 < n2 {
        assert(has_cont(s[pos + (n1 - 1)]));
    }
    if n2 < n1 {
        assert(has_cont(s[pos + (n2 - 1)]));
    }
}

/// Decode an unsigned 32-bit LEB128 integer from `bytes` at `pos`,
/// returning the byte count consumed and the value.
pub fn u32(bytes: &Vec<u8>, pos: usize) -> (r: Result<(usize, u32), Error>)
    requires
        pos <= bytes@.len(),
    ensures
        (r matches Ok((n, v)) ==> uleb32_len_at(bytes@, pos as int, n as int) && v as nat
            == uleb_val(bytes@.subrange(pos as int, pos + n))),
        r.is_ok() <==> (exists|n: int| uleb32_len_at(bytes@, pos as int, n)),
        r == Err::<(usize, u32), Error>(Error::Overflow) <==> uleb32_overflow_at(
            bytes@,
            pos as int,
        ),
{
    let len = bytes.len();
    let mut result: u32 = 0;
    let mut shift: u32 = 0;
    let mut size: usize = 0;
    proof {
        vstd::arithmetic::power2::lemma2_to64();
    }
    loop
        invariant
            pos <= bytes@.len(),
            len == bytes@.len(),
            size <= 4,
            shift == 7 * size,
            pos + size <= bytes@.len(),
            forall|i: int| pos <= i < pos + size ==> has_cont(#[trigger] bytes@[i]),
            result as nat == uleb_val(bytes@.subrange(pos as int, pos + size)),
            result < pow2(shift as nat),
        decreases bytes@.len() - pos - size,
    {
        proof {
            lemma_pow2_pos(shift as nat);
        }
        if pos + size >= len {
            // the stream ended before the encoding did
            proof {
                assert forall|n: int| !uleb32_len_at(bytes@, pos as int, n) by {
                    if 1 <= n <= 5 && pos + n <= bytes@.len() {
                        assert(has_cont(bytes@[pos + (n - 1)]));
                    }
                }
            }
            return Err(Error::IoError);
        }
        let byte = bytes[pos + size];
        size = size + 1;
        if shift == 28 && byte > 0x0f {
            // wider than 32 bits: drain the encoding, then report overflow
            let ghost start = pos + size - 1;
            let mut cur = byte;
            while cur & CONTINUATION_BIT != 0
                invariant
                    pos <= bytes@.len(),
                    len == bytes@.len(),
                    start == pos + 4,
                    start < pos + size <= bytes@.len(),
                    cur == bytes@[pos + size - 1],
                    bytes@[start] > 0x0f,
                    forall|i: int| pos <= i < pos + 4 ==> has_cont(#[trigger] bytes@[i]),
                    forall|i: int| start <= i < pos + size - 1 ==> has_cont(#[trigger] bytes@[i]),
                decreases bytes@.len() - pos - size,
            {
                if pos + size >= len {
                    proof {
                        assert(forall|i: int|
                            start <= i < bytes@.len() ==> has_cont(#[trigger] bytes@[i]));
                        assert forall|n: int| !uleb32_len_at(bytes@, pos as int, n) by {
                            if 1 <= n <= 5 && pos + n <= bytes@.len() {
                                if n == 5 {
                                    assert(bytes@[pos + 4] > 0x0f);
                                } else {
                                    assert(has_cont(bytes@[pos + (n - 1)]));
                                }
                            }
                        }
                    }
                    return Err(Error::IoError);
                }
                cur = bytes[pos + size];
                size = size + 1;
            }
            proof {
                assert(!has_cont(bytes@[pos + size - 1]));
                assert forall|n: int| !uleb32_len_at(bytes@, pos as int, n) by {
                    if 1 <= n <= 5 && pos + n <= bytes@.len() {
                        if n == 5 {
                            assert(bytes@[pos + 4] > 0x0f);
                        } else {
                            assert(has_cont(bytes@[pos + (n - 1)]));
                        }
                    }
                }
            }
            return Err(Error::Overflow);
        }
        let low = byte & 0x7f;
        proof {
            assert(low <= 0x7f && (byte <= 0x0f ==> low <= 0x0f) && low == low7(byte))
                by (bit_vector)
                requires
                    low == byte & 0x7f,
            ;
            lemma_or_accumulate(result, low as u32, shift);
            lemma_uleb_val_snoc(bytes@.subrange(pos as int, pos + size - 1), byte);
            assert(bytes@.subrange(pos as int, pos + size) =~= bytes@.subrange(
                pos as int,
                pos + size - 1,
            ).push(bytes@[pos + size - 1]));
        }
        result = result | ((low as u32) << shift);
        if byte & CONTINUATION_BIT == 0 {
            proof {
                assert(!has_cont(byte));
                assert(uleb32_len_at(bytes@, pos as int, size as int));
                assert(!uleb32_overflow_at(bytes@, pos as int)) by {
                    if uleb32_overflow_at(bytes@, pos as int) {
                        if size == 5 {
                            assert(bytes@[pos + 4] <= 0x0f);
                        } else {
                            assert(has_cont(bytes@[pos + (size - 1)]));
                        }
                    }
                }
            }
            return Ok((size, result));
        }
        proof {
            assert(has_cont(byte));
            if size == 5 {
                // a fifth byte with the continuation bit is wider than 0x0f
                assert(byte <= 0x0f ==> byte & 0x80 == 0) by (bit_vector);
                assert(false);
            }
        }
        shift = shift + 7;
    }
}

/// The signed 32-bit decoder accepts exactly the `n` bytes of `s` at `pos`:
/// at most five bytes, the last byte alone without the continuation bit.
/// A fifth byte may carry bits beyond bit 31; they are discarded.
pub open spec fn sleb32_len_at(s: Seq<u8>, pos: int, n: int) -> bool {
    &&& 1 <= n <= 5
    &&& 0 <= pos
    &&& pos + n <= s.len()
    &&& !has_cont(s[pos + n - 1])
    &&& (forall|i: int| 0 <= i < n - 1 ==> has_cont(#[trigger] s[pos + i]))
}

/// The signed 32-bit decoder reports `Overflow` at `pos`: five continuation
/// bytes, and the encoding still ends within the stream.
pub open spec fn sleb32_overflow_at(s: Seq<u8>, pos: int) -> bool {
    &&& 0 <= pos
    &&& pos + 5 <= s.len()
    &&& (forall|i: int| 0 <= i < 5 ==> has_cont(#[trigger] s[pos + i]))
    &&& (exists|j: int| pos + 5 <= j < s.len() && !has_cont(#[trigger] s[j]))
}

/// The 32 bits produced by decoding the signed encoding `s`: the payload
/// truncated to 32 bits, the high bits filled with the last byte's sign bit
/// when fewer than 32 payload bits were read.
pub open spec fn sleb32_bits(s: Seq<u8>) -> int
    recommends
        s.len() >= 1,
{
    let t = 7 * s.len();
    let raw = uleb_val(s) as int % 0x1_0000_0000;
    if t < 32 && s[s.len() - 1] & 0x40 != 0 {
        raw + 0x1_0000_0000 - pow2(t as nat)
    } else {
        raw
    }
}

/// The mathematical two's-complement value of the signed encoding `s`,
/// unbounded: the payload, minus its width's power of two when the last
/// byte's sign bit is set.
pub open spec fn sleb_signed(s: Seq<u8>) -> int {
    if s.len() > 0 && s[s.len() - 1] & 0x40 != 0 {
        uleb_val(s) - pow2((7 * s.len()) as nat)
    } else {
        uleb_val(s) as int
    }
}

/// Sign extension matches two's-complement semantics: the 32 decoded bits
/// are the encoding's signed mathematical value reduced modulo 2^32.
pub proof fn lemma_sleb32_twos_complement(s: Seq<u8>)
    requires
        1 <= s.len() <= 5,
    ensures
        sleb32_bits(s) == sleb_signed(s) % 0x1_0000_0000,
        0 <= sleb32_bits(s) < 0x1_0000_0000,
        0 <= sleb_signed(s) < 0x8000_0000 ==> sleb32_bits(s) == sleb_signed(s),
        -0x8000_0000 <= sleb_signed(s) < 0 ==> sleb32_bits(s) == sleb_signed(s) + 0x1_0000_0000,
{
    let t = (7 * s.len()) as nat;
    let m: int = 0x1_0000_0000;
    lemma_uleb_val_bound(s);
    assert(pow2(7) == 128 && pow2(14) == 0x4000 && pow2(21) == 0x20_0000 && pow2(28)
        == 0x1000_0000 && pow2(32) == 0x1_0000_0000 && pow2(35) == 0x8_0000_0000) by {
        vstd::arithmetic::power2::lemma2_to64();
        vstd::arithmetic::power2::lemma2_to64_rest();
    }
    let raw = uleb_val(s) as int;
    if s.len() <= 4 {
        assert(pow2(t) <= pow2(28)) by {
            if t < 28 {
                vstd::arithmetic::power2::lemma_pow2_strictly_increases(t, 28);
            }
        }
        vstd::arithmetic::div_mod::lemma_small_mod(uleb_val(s), m as nat);
        if s[s.len() - 1] & 0x40 != 0 {
            // negative: raw - 2^t is the value; adding one 2^32 lands in [0, 2^32)
            assert((raw - pow2(t)) % m == (m + (raw - pow2(t))) % m) by {
                vstd::arithmetic::div_mod::lemma_mod_multiples_vanish(1, raw - pow2(t), m);
            }
            vstd::arithmetic::div_mod::lemma_small_mod((m + raw - pow2(t)) as nat, m as nat);
        }
    } else {
        // five bytes: 2^35 is a multiple of 2^32, so subtracting it changes
        // nothing modulo 2^32
        if s[s.len() - 1] & 0x40 != 0 {
            assert((raw - pow2(35)) % m == (m * 8 + (raw - pow2(35))) % m) by {
                vstd::arithmetic::div_mod::lemma_mod_multiples_vanish(8, raw - pow2(35), m);
            }
        }
        vstd::arithmetic::div_mod::lemma_mod_division_less_than_divisor(raw, m);
    }
}

/// Decode a signed 32-bit LEB128 integer from `bytes` at `pos`, returning
/// the byte count consumed and the value. The high bits of the result are
/// filled with the final byte's sign bit when the encoding ends below 32
/// payload bits.
pub fn i32(bytes: &Vec<u8>, pos: usize) -> (r: Result<(usize, i32), Error>)
    requires
        pos <= bytes@.len(),
    ensures
        (r matches Ok((n, v)) ==> sleb32_len_at(bytes@, pos as int, n as int) && (v as u32) as int
            == sleb32_bits(bytes@.subrange(pos as int, pos + n))),
        r.is_ok() <==> (exists|n: int| sleb32_len_at(bytes@, pos as int, n)),
        r == Err::<(usize, i32), Error>(Error::Overflow) <==> sleb32_overflow_at(
            bytes@,
            pos as int,
        ),
{
    let len = bytes.len();
    let mut result: u32 = 0;
    let mut shift: u32 = 0;
    let mut size: usize = 0;
    proof {
        vstd::arithmetic::power2::lemma2_to64();
        vstd::arithmetic::power2::lemma2_to64_rest();
    }
    loop
        invariant
            pos <= bytes@.len(),
            len == bytes@.len(),
            size <= 4,
            shift == 7 * size,
            pos + size <= bytes@.len(),
            forall|i: int| pos <= i < pos + size ==> has_cont(#[trigger] bytes@[i]),
            result as nat == uleb_val(bytes@.subrange(pos as int, pos + size)),
            result < pow2(shift as nat),
            pow2(28) == 0x1000_0000 && pow2(32) == 0x1_0000_0000,
        decreases bytes@.len() - pos - size,
    {
        proof {
            lemma_pow2_pos(shift as nat);
        }
        if pos + size >= len {
            // the stream ended before the encoding did
            proof {
                assert forall|n: int| !sleb32_len_at(bytes@, pos as int, n) by {
                    if 1 <= n <= 5 && pos + n <= bytes@.len() {
                        assert(has_cont(bytes@[pos + (n - 1)]));
                    }
                }
            }
            return Err(Error::IoError);
        }
        let byte = bytes[pos + size];
        size = size + 1;
        let ghost consumed = bytes@.subrange(pos as int, pos + size);
        proof {
            lemma_uleb_val_snoc(bytes@.subrange(pos as int, pos + size - 1), byte);
            assert(consumed =~= bytes@.subrange(pos as int, pos + size - 1).push(
                bytes@[pos + size - 1],
            ));
        }
        if shift == 28 {
            // the fifth byte: the encoding must end here
            if byte & CONTINUATION_BIT != 0 {
                // it does not: drain the encoding, then report overflow
                let ghost start = pos + size - 1;
                let mut cur = byte;
                while cur & CONTINUATION_BIT != 0
                    invariant
                        pos <= bytes@.len(),
                        len == bytes@.len(),
                        start == pos + 4,
                        start < pos + size <= bytes@.len(),
                        cur == bytes@[pos + size - 1],
                        forall|i: int| pos <= i < pos + 4 ==> has_cont(#[trigger] bytes@[i]),
                        forall|i: int|
                            start <= i < pos + size - 1 ==> has_cont(#[trigger] bytes@[i]),
                    decreases bytes@.len() - pos - size,
                {
                    if pos + size >= len {
                        proof {
                            assert(forall|i: int|
                                pos <= i < bytes@.len() ==> has_cont(#[trigger] bytes@[i]));
                            assert forall|n: int| !sleb32_len_at(bytes@, pos as int, n) by {
                                if 1 <= n <= 5 && pos + n <= bytes@.len() {
                                    assert(has_cont(bytes@[pos + (n - 1)]));
                                }
                            }
                        }
                        return Err(Error::IoError);
                    }
                    cur = bytes[pos + size];
                    size = size + 1;
                }
                proof {
                    assert(!has_cont(bytes@[pos + size - 1]));
                    assert(pos + size - 1 >= pos + 5);
                    assert forall|n: int| !sleb32_len_at(bytes@, pos as int, n) by {
                        if 1 <= n <= 5 && pos + n <= bytes@.len() {
                            assert(has_cont(bytes@[pos + (n - 1)]));
                        }
                    }
                }
                return Err(Error::Overflow);
            }
            // terminal fifth byte: bits beyond bit 31 are discarded
            let low = byte & 0x7f;
            proof {
                let acc = result;
                assert((acc | ((low as u32) << 28u32)) == acc + (low as u32 % 16) * 0x1000_0000
                    && low == byte & 0x7f && (byte & 0x40 != 0 <==> low & 0x40 != 0) && low
                    <= 0x7f) by (bit_vector)
                    requires
                        acc < 0x1000_0000,
                        low == byte & 0x7f,
                ;
                // uleb_val of all five bytes, reduced modulo 2^32, is what the
                // truncating accumulation produces
                let raw = uleb_val(consumed) as int;
                assert(raw == acc + low as int * pow2(28));
                assert(low as int * pow2(28) == (low as int / 16) * 0x1_0000_0000 + (low as int
                    % 16) * 0x1000_0000) by (nonlinear_arith)
                    requires
                        pow2(28) == 0x1000_0000,
                ;
                assert(raw % 0x1_0000_0000 == (0x1_0000_0000 * (low as int / 16) + (acc + (
                low as int % 16) * 0x1000_0000)) % 0x1_0000_0000);
                vstd::arithmetic::div_mod::lemma_mod_multiples_vanish(
                    low as int / 16,
                    acc + (low as int % 16) * 0x1000_0000,
                    0x1_0000_0000,
                );
                vstd::arithmetic::div_mod::lemma_small_mod(
                    (acc + (low as int % 16) * 0x1000_0000) as nat,
                    0x1_0000_0000,
                );
                assert(!has_cont(byte));
                assert(bytes@[pos + 4] == byte);
                assert(sleb32_len_at(bytes@, pos as int, 5));
                assert(!sleb32_overflow_at(bytes@, pos as int)) by {
                    if sleb32_overflow_at(bytes@, pos as int) {
                        assert(has_cont(bytes@[pos + 4]));
                    }
                }
            }
            result = result | ((low as u32) << 28u32);
            let signed = #[verifier::truncate] (result as i32);
            proof {
                assert((signed as u32) == result) by (bit_vector)
                    requires
                        signed == result as i32,
                ;
            }
            return Ok((size, signed));
        }
        let low = byte & 0x7f;
        proof {
            assert(low <= 0x7f && low == low7(byte)) by (bit_vector)
                requires
                    low == byte & 0x7f,
            ;
            lemma_or_accumulate(result, low as u32, shift);
        }
        result = result | ((low as u32) << shift);
        shift = shift + 7;
        if byte & CONTINUATION_BIT == 0 {
            proof {
                assert(!has_cont(byte));
                assert(sleb32_len_at(bytes@, pos as int, size as int));
                assert(!sleb32_overflow_at(bytes@, pos as int)) by {
                    if sleb32_overflow_at(bytes@, pos as int) {
                        assert(has_cont(bytes@[pos + (size - 1)]));
                    }
                }
                vstd::arithmetic::div_mod::lemma_small_mod(uleb_val(consumed), 0x1_0000_0000);
                assert(pow2(shift as nat) <= pow2(28)) by {
                    if shift < 28 {
                        vstd::arithmetic::power2::lemma_pow2_strictly_increases(
                            shift as nat,
                            28,
                        );
                    }
                }
            }
            if byte & SIGN_BIT != 0 {
                // sign-extend: fill the bits above `shift` with ones
                proof {
                    let acc = result;
                    lemma_u32_shl_is_mul(1u32, shift);
                    assert((acc | (0xffff_ffffu32 << shift)) == acc + (0x1_0000_0000 - (1u32
                        << shift))) by (bit_vector)
                        requires
                            acc < (1u32 << shift),
                            shift < 32,
                    ;
                }
                result = result | (0xffff_ffffu32 << shift);
            }
            let signed = #[verifier::truncate] (result as i32);
            proof {
                assert((signed as u32) == result) by (bit_vector)
                    requires
                        signed == result as i32,
                ;
                assert(consumed[consumed.len() - 1] == byte);
                assert(byte & 0x40 != 0 <==> consumed[consumed.len() - 1] & 0x40 != 0);
            }
            return Ok((size, signed));
        }
        proof {
            assert(has_cont(byte));
        }
    }
}

/// The minimal LEB128 encoding of an unsigned value, least-significant
/// seven payload bits first.
pub open spec fn uleb_encode(v: nat) -> Seq<u8>
    decreases v,
    when v >= 0 via uleb_encode_decreases
{
    if v < 128 {
        seq![v as u8]
    } else {
        seq![(128 + v % 128) as u8] + uleb_encode(v / 128)
    }
}

#[via_fn]
proof fn uleb_encode_decreases(v: nat) {
    if v >= 128 {
        vstd::arithmetic::div_mod::lemma_div_decreases(v as int, 128);
    }
}

/// Encode a 32-bit unsigned value as a minimal LEB128 byte sequence.
pub fn encode_u32(value: u32) -> (r: Vec<u8>)
    ensures
        r@ == uleb_encode(value as nat),
{
    let mut out: Vec<u8> = Vec::new();
    let mut v = value;
    loop
        invariant
            uleb_encode(value as nat) == out@ + uleb_encode(v as nat),
        decreases v,
    {
        if v < 128 {
            out.push(v as u8);
            proof {
                assert(uleb_encode(v as nat) =~= seq![v as u8]);
                assert(out@ =~= uleb_encode(value as nat));
            }
            return out;
        }
        let b = 128 + (v % 128) as u8;
        out.push(b);
        proof {
            assert(uleb_encode(v as nat) == seq![(128 + v as nat % 128) as u8] + uleb_encode(
                v as nat / 128,
            ));
            assert(b == (128 + v as nat % 128) as u8);
            assert(out@ + uleb_encode((v / 128) as nat) =~= uleb_encode(value as nat));
        }
        v = v / 128;
    }
}

/// The shape of a minimal encoding: its payload is the encoded value, every
/// byte but the last announces a successor, and the last byte holds the
/// value's highest seven bits.
proof fn lemma_uleb_encode_shape(v: nat)
    ensures
        uleb_val(uleb_encode(v)) == v,
        uleb_encode(v).len() >= 1,
        !has_cont(uleb_encode(v).last()),
        forall|i: int|
            0 <= i < uleb_encode(v).len() - 1 ==> has_cont(#[trigger] uleb_encode(v)[i]),
        uleb_encode(v).last() as nat == v / pow2((7 * (uleb_encode(v).len() - 1)) as nat),
    decreases v,
{
    vstd::arithmetic::power2::lemma2_to64();
    let s = uleb_encode(v);
    if v < 128 {
        assert(s =~= seq![v as u8]);
        assert(s.drop_first() =~= Seq::<u8>::empty());
        let b = v as u8;
        assert(b == v);
        assert(b < 128 ==> !has_cont(b) && low7(b) == b) by (bit_vector);
        assert(uleb_val(s) == low7(b) as nat + 128 * uleb_val(s.drop_first()));
        assert(s.last() == b);
        assert(v / pow2(0) == v);
    } else {
        vstd::arithmetic::div_mod::lemma_div_decreases(v as int, 128);
        vstd::arithmetic::div_mod::lemma_div_pos_is_pos(v as int, 128);
        lemma_uleb_encode_shape(v / 128);
        let rest = uleb_encode(v / 128);
        let b = (128 + v % 128) as u8;
        assert(s =~= seq![b] + rest);
        assert(s.drop_first() =~= rest);
        assert(s[0] == b);
        let ghost r: u8 = (v % 128) as u8;
        vstd::arithmetic::div_mod::lemma_mod_division_less_than_divisor(v as int, 128);
        assert(b == 128 + r && r < 128 ==> has_cont(b) && low7(b) == r) by (bit_vector);
        vstd::arithmetic::div_mod::lemma_fundamental_div_mod(v as int, 128);
        assert(uleb_val(s) == low7(b) as nat + 128 * uleb_val(rest));
        // the last byte of s is the last byte of rest, one 7-bit step deeper
        assert(s.last() == rest.last());
        let k = rest.len() - 1;
        lemma_pow2_adds(7, (7 * k) as nat);
        lemma_pow2_pos((7 * k) as nat);
        vstd::arithmetic::div_mod::lemma_div_denominator(v as int, 128, pow2((7 * k) as nat) as int);
        assert(s.len() - 1 == k + 1);
        assert((7 * (s.len() - 1)) as nat == 7 + (7 * k) as nat);
        assert(forall|i: int| 0 < i < s.len() - 1 ==> s[i] == rest[i - 1]);
    }
}

/// A minimal encoding of a value below `2^(7 k)` takes at most `k` bytes.
proof fn lemma_uleb_encode_len(v: nat, k: nat)
    requires
        k >= 1,
        v < pow2(7 * k),
    ensures
        uleb_encode(v).len() <= k,
    decreases k,
{
    vstd::arithmetic::power2::lemma2_to64();
    if v < 128 {
    } else {
        assert(k >= 2) by {
            if k == 1 {
                assert(pow2(7) == 128);
            }
        }
        lemma_pow2_adds(7, 7 * (k - 1) as nat);
        assert(v / 128 < pow2(7 * (k - 1) as nat)) by {
            vstd::arithmetic::div_mod::lemma_multiply_divide_lt(
                v as int,
                128,
                pow2(7 * (k - 1) as nat) as int,
            );
        }
        lemma_uleb_encode_len(v / 128, (k - 1) as nat);
    }
}

/// Round trip: the minimal encoding of any 32-bit value is accepted by the
/// unsigned decoder in full and yields exactly that value back.
pub proof fn lemma_uleb_round_trip(v: u32)
    ensures
        uleb32_len_at(uleb_encode(v as nat), 0, uleb_encode(v as nat).len() as int),
        uleb_val(uleb_encode(v as nat)) == v as nat,
{
    let s = uleb_encode(v as nat);
    lemma_uleb_encode_shape(v as nat);
    assert(pow2(28) == 0x1000_0000 && pow2(32) == 0x1_0000_0000 && pow2(35) == 0x8_0000_0000) by {
        vstd::arithmetic::power2::lemma2_to64();
        vstd::arithmetic::power2::lemma2_to64_rest();
    }
    assert((v as nat) < pow2(7 * 5)) by {
        vstd::arithmetic::power2::lemma_pow2_strictly_increases(32, 35);
    }
    lemma_uleb_encode_len(v as nat, 5);
    if s.len() == 5 {
        assert(s.last() as nat == v as nat / pow2(28));
        assert(v as nat / pow2(28) <= 0x0f) by {
            vstd::arithmetic::div_mod::lemma_multiply_divide_lt(v as int, pow2(28) as int, 16);
        }
        assert(s[4int] == s.last());
    }
    assert(!has_cont(s[s.len() as int - 1]));
}

} // verus!

