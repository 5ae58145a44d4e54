//! LEB128 variable-length integers, unsigned and signed, as the wire format
//! uses them: unsigned for counts and indices, signed for type references.
//!
//! The decoder accepts any encoding whose 64-bit accumulator does not
//! overflow: at most ten bytes, and the tenth limited to the values that
//! leave the accumulator in range. A value is then rejected separately if it
//! does not fit the 32-bit target type. The encoder always emits the
//! shortest form.

use vstd::prelude::*;
use vstd::arithmetic::power2::pow2;
use vstd::arithmetic::power2::lemma_pow2_adds;
use vstd::arithmetic::power2::lemma_pow2_strictly_increases;
use vstd::arithmetic::power2::lemma2_to64;
use vstd::arithmetic::power2::lemma2_to64_rest;

use crate::binary::error::DecodeError;

verus! {

// ---------------------------------------------------------------------------
// Specification.
// ---------------------------------------------------------------------------

/// The shortest unsigned LEB128 encoding of `v`.
pub open spec fn uleb_enc(v: nat) -> Seq<u8>
    decreases v,
{
    if v < 128 {
        seq![v as u8]
    } else {
        seq![(v % 128 + 128) as u8] + uleb_enc(v / 128)
    }
}

/// The shortest signed LEB128 encoding of a non-negative value: as the
/// unsigned form, but a final group with its high bit set would read as
/// negative, so the terminal group must leave that bit clear.
pub open spec fn sleb_enc_nonneg(v: nat) -> Seq<u8>
    decreases v,
{
    if v < 64 {
        seq![v as u8]
    } else {
        seq![(v % 128 + 128) as u8] + sleb_enc_nonneg(v / 128)
    }
}

/// What an unsigned LEB128 read returns from byte position zero of `s`, with
/// `shift` bits already consumed: the value contributed by the remaining
/// groups (already scaled by `pow2(shift)`) and the count of bytes read.
/// Mirrors a 64-bit accumulator: once 63 bits are consumed, only the two
/// final groups that fit are accepted.
pub open spec fn uleb_dec_at(s: Seq<u8>, shift: nat) -> Result<(nat, int), DecodeError>
    decreases s.len(),
{
    if s.len() == 0 {
        Err(DecodeError::UnexpectedEof)
    } else {
        let b = s[0] as nat;
        if shift == 63 && b != 0 && b != 1 {
            Err(DecodeError::IntegerOverflow)
        } else if b < 128 {
            Ok((b * pow2(shift), 1))
        } else {
            match uleb_dec_at(s.skip(1), shift + 7) {
                Ok((v, n)) => Ok((((b - 128) * pow2(shift) + v) as nat, n + 1)),
                Err(e) => Err(e),
            }
        }
    }
}

/// What a signed LEB128 read returns: as the unsigned form, but the terminal
/// group's bit six is a sign bit, and the 64-bit cap admits only the two
/// final groups that stand for zero and minus one.
pub open spec fn sleb_dec_at(s: Seq<u8>, shift: nat) -> Result<(int, int), DecodeError>
    decreases s.len(),
{
    if s.len() == 0 {
        Err(DecodeError::UnexpectedEof)
    } else {
        let b = s[0] as int;
        if shift == 63 && b != 0 && b != 0x7f {
            Err(DecodeError::IntegerOverflow)
        } else if b < 64 {
            Ok((b * pow2(shift), 1))
        } else if b < 128 {
            Ok(((b - 128) * pow2(shift), 1))
        } else {
            match sleb_dec_at(s.skip(1), shift + 7) {
                Ok((v, n)) => Ok(((b - 128) * pow2(shift) + v, n + 1)),
                Err(e) => Err(e),
            }
        }
    }
}

/// An unsigned LEB128 read whose value must fit in 32 bits.
pub open spec fn uleb32_dec(s: Seq<u8>) -> Result<(u32, int), DecodeError> {
    match uleb_dec_at(s, 0) {
        Ok((v, n)) => if v <= u32::MAX as nat {
            Ok((v as u32, n))
        } else {
            Err(DecodeError::IntegerOverflow)
        },
        Err(e) => Err(e),
    }
}

/// A signed LEB128 read whose value must fit in 32 bits.
pub open spec fn sleb32_dec(s: Seq<u8>) -> Result<(i32, int), DecodeError> {
    match sleb_dec_at(s, 0) {
        Ok((v, n)) => if i32::MIN as int <= v <= i32::MAX as int {
            Ok((v as i32, n))
        } else {
            Err(DecodeError::IntegerOverflow)
        },
        Err(e) => Err(e),
    }
}

// ---------------------------------------------------------------------------
// Bounds of decoded values, needed to run the arithmetic on machine words.
// ---------------------------------------------------------------------------

/// A successful unsigned read at `shift` yields at most
/// `pow2(64) - pow2(shift)`, and consumes at least one byte.
pub proof fn lemma_uleb_dec_bound(s: Seq<u8>, shift: nat)
    requires
        shift % 7 == 0,
        shift <= 63,
    ensures
        uleb_dec_at(s, shift) matches Ok((v, n)) ==> v + pow2(shift) <= pow2(64) && 1 <= n <= s.len(),
    decreases s.len(),
{
    lemma2_to64();
    lemma2_to64_rest();
    if s.len() > 0 {
        let b = s[0] as nat;
        if shift == 63 && b != 0 && b != 1 {
        } else if b < 128 {
            if shift < 63 {
                assert(b * pow2(shift) <= 127 * pow2(shift)) by (nonlinear_arith)
                    requires b <= 127, pow2(shift) > 0,
                ;
                lemma_pow2_adds(shift, 7);
                assert(127 * pow2(shift) + pow2(shift) == pow2(shift + 7));
                lemma_pow2_strictly_increases(shift + 7, 64);
            }
        } else {
            lemma_uleb_dec_bound(s.skip(1), shift + 7);
            if uleb_dec_at(s.skip(1), shift + 7) matches Ok((v2, n2)) {
                assert((b - 128) * pow2(shift) <= 127 * pow2(shift)) by (nonlinear_arith)
                    requires b <= 255, b >= 128, pow2(shift) > 0,
                ;
                lemma_pow2_adds(shift, 7);
                assert(127 * pow2(shift) + pow2(shift) == pow2(shift + 7));
            }
        }
    }
}

/// A successful signed read at `shift` yields a value in
/// `[-pow2(63), pow2(63) - pow2(shift)]`, and consumes at least one byte.
pub proof fn lemma_sleb_dec_bound(s: Seq<u8>, shift: nat)
    requires
        shift % 7 == 0,
        shift <= 63,
    ensures
        sleb_dec_at(s, shift) matches Ok((v, n)) ==> -(pow2(63) as int) <= v
            && v + pow2(shift) <= pow2(63) && 1 <= n <= s.len(),
    decreases s.len(),
{
    lemma2_to64();
    lemma2_to64_rest();
    if s.len() > 0 {
        let b = s[0] as int;
        if shift == 63 && b != 0 && b != 0x7f {
        } else if b < 64 {
            if shift < 63 {
                assert(b * pow2(shift) <= 63 * pow2(shift)) by (nonlinear_arith)
                    requires b <= 63, pow2(shift) > 0,
                ;
                assert(b * pow2(shift) >= 0) by (nonlinear_arith)
                    requires b >= 0, pow2(shift) > 0,
                ;
                lemma_pow2_adds(shift, 6);
                assert(63 * pow2(shift) + pow2(shift) == pow2(shift + 6));
                lemma_pow2_strictly_increases(shift + 6, 63);
            } else {
                assert(b == 0);
            }
        } else if b < 128 {
            assert((b - 128) * pow2(shift) >= (-64) * pow2(shift)) by (nonlinear_arith)
                requires b >= 64, b < 128, pow2(shift) > 0,
            ;
            assert((b - 128) * pow2(shift) <= (-1) * pow2(shift)) by (nonlinear_arith)
                requires b >= 64, b < 128, pow2(shift) > 0,
            ;
            lemma_pow2_adds(shift, 6);
            if shift < 63 {
                lemma_pow2_strictly_increases(shift + 6, 63);
            }
            assert(64 * pow2(shift) == pow2(shift + 6));
        } else {
            lemma_sleb_dec_bound(s.skip(1), shift + 7);
            if sleb_dec_at(s.skip(1), shift + 7) matches Ok((v2, n2)) {
                assert((b - 128) * pow2(shift) <= 127 * pow2(shift)) by (nonlinear_arith)
                    requires b <= 255, b >= 128, pow2(shift) > 0,
                ;
                assert((b - 128) * pow2(shift) >= 0) by (nonlinear_arith)
                    requires b >= 128, pow2(shift) > 0,
                ;
                lemma_pow2_adds(shift, 7);
                assert(127 * pow2(shift) + pow2(shift) == pow2(shift + 7));
            }
        }
    }
}

// ---------------------------------------------------------------------------
// Round trips: decoding an encoding yields the encoded value.
// ---------------------------------------------------------------------------

/// Reading an unsigned encoding at `shift`, with anything after it, yields
/// exactly the encoded value scaled by `pow2(shift)`.
pub proof fn lemma_uleb_roundtrip(v: nat, shift: nat, rest: Seq<u8>)
    requires
        shift % 7 == 0,
        shift <= 63,
        v < pow2((63 - shift) as nat),
    ensures
        uleb_dec_at(uleb_enc(v) + rest, shift) == Ok::<(nat, int), DecodeError>((
            v * pow2(shift),
            uleb_enc(v).len() as int,
        )),
    decreases v,
{
    lemma2_to64();
    lemma2_to64_rest();
    let s = uleb_enc(v) + rest;
    if v < 128 {
        assert(s[0] == v as u8);
        if shift == 63 {
            assert(v < pow2(0));
            assert(v == 0);
        }
        assert(uleb_enc(v).len() == 1);
    } else {
        let b = (v % 128 + 128) as u8;
        assert(s[0] == b);
        assert(shift + 7 <= 63 && v / 128 < pow2((63 - (shift + 7)) as nat)) by {
            lemma_pow2_adds((63 - shift - 7) as nat, 7);
            assert(v / 128 < pow2((63 - shift - 7) as nat)) by (nonlinear_arith)
                requires
                    v < pow2((63 - shift) as nat),
                    pow2((63 - shift) as nat) == pow2((63 - shift - 7) as nat) * 128,
                    pow2((63 - shift - 7) as nat) > 0,
            ;
            if 63 - shift < 8 {
                lemma_pow2_strictly_increases((63 - shift) as nat, 8);
                assert(v < pow2(8));
                assert(false);
            }
        }
        lemma_uleb_roundtrip(v / 128, shift + 7, rest);
        assert(s.skip(1) =~= uleb_enc(v / 128) + rest);
        lemma_pow2_adds(shift, 7);
        assert((v % 128) * pow2(shift) + (v / 128) * pow2(shift + 7) == v * pow2(shift))
            by (nonlinear_arith)
            requires
                pow2(shift + 7) == pow2(shift) * 128,
                v == 128 * (v / 128) + v % 128,
        ;
    }
}

/// Reading a signed encoding of a non-negative value at `shift`, with
/// anything after it, yields exactly the encoded value scaled by
/// `pow2(shift)`.
pub proof fn lemma_sleb_nonneg_roundtrip(v: nat, shift: nat, rest: Seq<u8>)
    requires
        shift % 7 == 0,
        shift <= 56,
        v < pow2((62 - shift) as nat),
    ensures
        sleb_dec_at(sleb_enc_nonneg(v) + rest, shift) == Ok::<(int, int), DecodeError>((
            (v * pow2(shift)) as int,
            sleb_enc_nonneg(v).len() as int,
        )),
    decreases v,
{
    lemma2_to64();
    lemma2_to64_rest();
    let s = sleb_enc_nonneg(v) + rest;
    if v < 64 {
        assert(s[0] == v as u8);
        assert(sleb_enc_nonneg(v).len() == 1);
    } else {
        let b = (v % 128 + 128) as u8;
        assert(s[0] == b);
        assert(shift < 56 && v / 128 < pow2((62 - (shift + 7)) as nat)) by {
            if 62 - shift < 7 {
                lemma_pow2_strictly_increases((62 - shift) as nat, 7);
                assert(v < pow2(7));
                assert(false);
            }
            lemma_pow2_adds((62 - shift - 7) as nat, 7);
            assert(v / 128 < pow2((62 - shift - 7) as nat)) by (nonlinear_arith)
                requires
                    v < pow2((62 - shift) as nat),
                    pow2((62 - shift) as nat) == pow2((62 - shift - 7) as nat) * 128,
                    pow2((62 - shift - 7) as nat) > 0,
            ;
        }
        lemma_sleb_nonneg_roundtrip(v / 128, shift + 7, rest);
        assert(s.skip(1) =~= sleb_enc_nonneg(v / 128) + rest);
        lemma_pow2_adds(shift, 7);
        assert((v % 128) * pow2(shift) + (v / 128) * pow2(shift + 7) == v * pow2(shift))
            by (nonlinear_arith)
            requires
                pow2(shift + 7) == pow2(shift) * 128,
                v == 128 * (v / 128) + v % 128,
        ;
    }
}

/// Monotonicity of `pow2`, non-strict.
proof fn lemma_pow2_le(e1: nat, e2: nat)
    requires
        e1 <= e2,
    ensures
        pow2(e1) <= pow2(e2),
{
    if e1 < e2 {
        lemma_pow2_strictly_increases(e1, e2);
    }
}

// ---------------------------------------------------------------------------
// Executable readers and writers.
// ---------------------------------------------------------------------------

/// Reads the unsigned groups from `shift` on; `p` carries `pow2(shift)`.
/// The result is already scaled.
fn read_uleb_part(s: &[u8], pos: &mut usize, shift: u32, p: u64) -> (r: Result<u64, DecodeError>)
    requires
        *old(pos) <= s@.len(),
        shift % 7 == 0,
        shift <= 63,
        p as nat == pow2(shift as nat),
    ensures
        match r {
            Ok(v) => uleb_dec_at(s@.skip(*old(pos) as int), shift as nat)
                == Ok::<(nat, int), DecodeError>((v as nat, *final(pos) - *old(pos)))
                && *old(pos) < *final(pos) && *final(pos) <= s@.len(),
            Err(e) => uleb_dec_at(s@.skip(*old(pos) as int), shift as nat)
                == Err::<(nat, int), DecodeError>(e),
        },
    decreases s@.len() - *old(pos),
{
    proof {
        lemma2_to64();
        lemma2_to64_rest();
    }
    let ghost start = *pos as int;
    if *pos == s.len() {
        proof {
            assert(s@.skip(start).len() == 0);
        }
        return Err(DecodeError::UnexpectedEof);
    }
    let b = s[*pos];
    proof {
        assert(s@.skip(start)[0] == s@[start]);
    }
    if shift == 63 && b != 0 && b != 1 {
        return Err(DecodeError::IntegerOverflow);
    }
    *pos = *pos + 1;
    if b < 128 {
        proof {
            if shift < 63 {
                lemma_pow2_le(shift as nat, 56);
                assert(b * p <= 127 * p) by (nonlinear_arith)
                    requires b < 128, p > 0,
                ;
                assert(127 * pow2(shift as nat) <= 127 * pow2(56)) by (nonlinear_arith)
                    requires pow2(shift as nat) <= pow2(56),
                ;
            }
            assert(uleb_dec_at(s@.skip(start), shift as nat)
                == Ok::<(nat, int), DecodeError>(((b as nat) * pow2(shift as nat), 1)));
        }
        let v = (b as u64) * p;
        return Ok(v);
    }
    let low = (b - 128) as u64;
    proof {
        assert(shift < 63);
        lemma_pow2_adds(shift as nat, 7);
        lemma_pow2_strictly_increases(shift as nat, 57);
        assert(shift as nat + 7 <= 63 && (shift + 7) % 7 == 0);
    }
    let p7 = p * 128;
    match read_uleb_part(s, pos, shift + 7, p7) {
        Ok(v2) => {
            proof {
                lemma_uleb_dec_bound(s@.skip(start + 1), shift as nat + 7);
                assert(low * p <= 127 * p) by (nonlinear_arith)
                    requires low <= 127, p > 0,
                ;
                assert(127 * pow2(shift as nat) + pow2(shift as nat) == pow2(shift as nat + 7));
                assert(v2 as nat + pow2(shift as nat + 7) <= pow2(64));
                assert(s@.skip(start).skip(1) =~= s@.skip(start + 1));
                assert(uleb_dec_at(s@.skip(start), shift as nat)
                    == Ok::<(nat, int), DecodeError>((
                        (low as nat) * pow2(shift as nat) + v2 as nat,
                        (*pos - start),
                    )));
            }
            Ok(low * p + v2)
        },
        Err(e) => {
            proof {
                assert(s@.skip(start).skip(1) =~= s@.skip(start + 1));
            }
            Err(e)
        },
    }
}

/// Reads one unsigned 32-bit variable-length integer at `*pos`, advancing
/// `*pos` past it. Fails on a truncated stream, on a malformed encoding, and
/// on a value that does not fit.
pub fn read_uleb32(s: &[u8], pos: &mut usize) -> (r: Result<u32, DecodeError>)
    requires
        *old(pos) <= s@.len(),
    ensures
        match r {
            Ok(v) => uleb32_dec(s@.skip(*old(pos) as int))
                == Ok::<(u32, int), DecodeError>((v, *final(pos) - *old(pos)))
                && *old(pos) < *final(pos) && *final(pos) <= s@.len(),
            Err(e) => uleb32_dec(s@.skip(*old(pos) as int)) == Err::<(u32, int), DecodeError>(e),
        },
{
    proof {
        lemma2_to64();
    }
    match read_uleb_part(s, pos, 0, 1) {
        Ok(v) => {
            if v <= 0xFFFF_FFFF {
                Ok(v as u32)
            } else {
                Err(DecodeError::IntegerOverflow)
            }
        },
        Err(e) => Err(e),
    }
}

/// Reads the signed groups from `shift` on; `p` carries `pow2(shift)`. The
/// result is already scaled, and negative exactly when the terminal group's
/// sign bit is set.
fn read_sleb_part(s: &[u8], pos: &mut usize, shift: u32, p: u64) -> (r: Result<i64, DecodeError>)
    requires
        *old(pos) <= s@.len(),
        shift % 7 == 0,
        shift <= 63,
        p as nat == pow2(shift as nat),
    ensures
        match r {
            Ok(v) => sleb_dec_at(s@.skip(*old(pos) as int), shift as nat)
                == Ok::<(int, int), DecodeError>((v as int, *final(pos) - *old(pos)))
                && *old(pos) < *final(pos) && *final(pos) <= s@.len(),
            Err(e) => sleb_dec_at(s@.skip(*old(pos) as int), shift as nat)
                == Err::<(int, int), DecodeError>(e),
        },
    decreases s@.len() - *old(pos),
{
    proof {
        lemma2_to64();
        lemma2_to64_rest();
    }
    let ghost start = *pos as int;
    if *pos == s.len() {
        proof {
            assert(s@.skip(start).len() == 0);
        }
        return Err(DecodeError::UnexpectedEof);
    }
    let b = s[*pos];
    proof {
        assert(s@.skip(start)[0] == s@[start]);
    }
    if shift == 63 && b != 0 && b != 0x7f {
        return Err(DecodeError::IntegerOverflow);
    }
    *pos = *pos + 1;
    if b < 64 {
        proof {
            if shift < 63 {
                lemma_pow2_le(shift as nat, 56);
                assert(b * p <= 63 * p) by (nonlinear_arith)
                    requires b < 64, p > 0,
                ;
                assert(63 * pow2(shift as nat) <= 63 * pow2(56)) by (nonlinear_arith)
                    requires pow2(shift as nat) <= pow2(56),
                ;
            } else {
                assert(b == 0);
            }
            assert(sleb_dec_at(s@.skip(start), shift as nat)
                == Ok::<(int, int), DecodeError>(((b as int) * pow2(shift as nat), 1)));
        }
        let v = ((b as u64) * p) as i64;
        return Ok(v);
    }
    if b < 128 {
        proof {
            assert(sleb_dec_at(s@.skip(start), shift as nat)
                == Ok::<(int, int), DecodeError>(((b as int - 128) * pow2(shift as nat), 1)));
        }
        if shift == 63 {
            // The only admitted group here stands for minus one: the value
            // is the least 64-bit integer.
            proof {
                assert(b == 0x7f);
                assert((b as int - 128) * pow2(63) == -pow2(63)) by (nonlinear_arith)
                    requires b == 0x7f,
            ;
            }
            return Ok(i64::MIN);
        }
        let m = (128 - b) as u64;
        proof {
            lemma_pow2_le(shift as nat, 56);
            assert(m * p <= 64 * p) by (nonlinear_arith)
                requires m <= 64, p > 0,
            ;
            assert(64 * pow2(shift as nat) <= 64 * pow2(56)) by (nonlinear_arith)
                requires pow2(shift as nat) <= pow2(56),
            ;
            assert((b as int - 128) * pow2(shift as nat) == -((m * p) as int)) by (nonlinear_arith)
                requires
                    m == 128 - b,
                    p as nat == pow2(shift as nat),
                    p > 0,
            ;
        }
        let d = m * p;
        return Ok(-(d as i64));
    }
    let low = (b - 128) as u64;
    proof {
        assert(shift < 63);
        lemma_pow2_adds(shift as nat, 7);
        lemma_pow2_strictly_increases(shift as nat, 57);
    }
    let p7 = p * 128;
    match read_sleb_part(s, pos, shift + 7, p7) {
        Ok(v2) => {
            proof {
                lemma_sleb_dec_bound(s@.skip(start + 1), shift as nat + 7);
                assert(low * p <= 127 * p) by (nonlinear_arith)
                    requires low <= 127, p > 0,
                ;
                assert(127 * pow2(shift as nat) + pow2(shift as nat) == pow2(shift as nat + 7));
                assert(v2 as int + pow2(shift as nat + 7) <= pow2(63));
                assert(s@.skip(start).skip(1) =~= s@.skip(start + 1));
                assert(sleb_dec_at(s@.skip(start), shift as nat)
                    == Ok::<(int, int), DecodeError>((
                        (low as int) * pow2(shift as nat) + v2 as int,
                        (*pos - start),
                    )));
            }
            Ok((low * p) as i64 + v2)
        },
        Err(e) => {
            proof {
                assert(s@.skip(start).skip(1) =~= s@.skip(start + 1));
            }
            Err(e)
        },
    }
}

/// Reads one signed 32-bit variable-length integer at `*pos`, advancing
/// `*pos` past it. Fails on a truncated stream, on a malformed encoding, and
/// on a value that does not fit.
pub fn read_sleb32(s: &[u8], pos: &mut usize) -> (r: Result<i32, DecodeError>)
    requires
        *old(pos) <= s@.len(),
    ensures
        match r {
            Ok(v) => sleb32_dec(s@.skip(*old(pos) as int))
                == Ok::<(i32, int), DecodeError>((v, *final(pos) - *old(pos)))
                && *old(pos) < *final(pos) && *final(pos) <= s@.len(),
            Err(e) => sleb32_dec(s@.skip(*old(pos) as int)) == Err::<(i32, int), DecodeError>(e),
        },
{
    proof {
        lemma2_to64();
    }
    match read_sleb_part(s, pos, 0, 1) {
        Ok(v) => {
            if -0x8000_0000i64 <= v && v <= 0x7FFF_FFFFi64 {
                Ok(v as i32)
            } else {
                Err(DecodeError::IntegerOverflow)
            }
        },
        Err(e) => Err(e),
    }
}

/// Appends the shortest unsigned encoding of `v`.
pub fn write_uleb32(out: &mut Vec<u8>, v: u32)
    ensures
        final(out)@ == old(out)@ + uleb_enc(v as nat),
    decreases v,
{
    if v < 128 {
        out.push(v as u8);
        proof {
            assert(out@ =~= old(out)@ + uleb_enc(v as nat));
        }
    } else {
        out.push((v % 128 + 128) as u8);
        write_uleb32(out, v / 128);
        proof {
            assert(out@ =~= old(out)@ + uleb_enc(v as nat));
        }
    }
}

/// Appends the shortest signed encoding of the non-negative value `v`.
pub fn write_sleb32_nonneg(out: &mut Vec<u8>, v: u32)
    ensures
        final(out)@ == old(out)@ + sleb_enc_nonneg(v as nat),
    decreases v,
{
    if v < 64 {
        out.push(v as u8);
        proof {
            assert(out@ =~= old(out)@ + sleb_enc_nonneg(v as nat));
        }
    } else {
        out.push((v % 128 + 128) as u8);
        write_sleb32_nonneg(out, v / 128);
        proof {
            assert(out@ =~= old(out)@ + sleb_enc_nonneg(v as nat));
        }
    }
}

} // verus!
