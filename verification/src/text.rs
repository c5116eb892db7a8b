//! Byte-string utilities: terminator scanning, decimal rendering, and the
//! lossy UTF-8 decoding used when engine byte strings cross into host
//! strings.

use vstd::prelude::*;

verus! {

use vstd::utf8::{
    decode_first_scalar, decode_utf8, encode_scalar, encode_utf8, length_of_first_scalar,
    pop_first_scalar, take_first_scalar, valid_first_scalar, valid_utf8,
};
use vstd::string::StringSliceAdditionalSpecFns;
use vstd::string::StringExecFns;

/// The byte string holds an embedded terminator byte.
pub open spec fn has_nul(b: Seq<u8>) -> bool {
    exists|i: int| 0 <= i < b.len() && b[i] == 0u8
}

/// Whether the byte string holds an embedded terminator byte.
pub fn contains_nul(b: &[u8]) -> (r: bool)
    ensures
        r == has_nul(b@),
{
    let mut i: usize = 0;
    while i < b.len()
        invariant
            0 <= i <= b@.len(),
            forall|k: int| 0 <= k < i ==> b@[k] != 0u8,
        decreases b.len() - i,
    {
        if b[i] == 0 {
            return true;
        }
        i = i + 1;
    }
    false
}

/// Decimal digits of an unsigned number, most significant first.
pub open spec fn dec_u64(n: nat) -> Seq<u8>
    decreases n,
{
    if n < 10 {
        seq![(48 + n) as u8]
    } else {
        dec_u64(n / 10).push((48 + n % 10) as u8)
    }
}

/// Decimal rendering of a signed number.
pub open spec fn dec_i64(n: int) -> Seq<u8> {
    if n < 0 {
        seq![45u8] + dec_u64((-n) as nat)
    } else {
        dec_u64(n as nat)
    }
}

/// Append the decimal digits of `x`.
fn push_dec_u64(out: &mut Vec<u8>, x: u64)
    ensures
        final(out)@ == old(out)@ + dec_u64(x as nat),
    decreases x,
{
    if x < 10 {
        out.push(48 + x as u8);
        proof {
            assert(final(out)@ =~= old(out)@ + dec_u64(x as nat));
        }
    } else {
        push_dec_u64(out, x / 10);
        out.push(48 + (x % 10) as u8);
        proof {
            assert(final(out)@ =~= old(out)@ + dec_u64(x as nat));
        }
    }
}

/// The decimal digits of an unsigned number, as bytes.
pub fn fmt_u64(x: u64) -> (r: Vec<u8>)
    ensures
        r@ == dec_u64(x as nat),
{
    let mut out: Vec<u8> = Vec::new();
    push_dec_u64(&mut out, x);
    proof {
        assert(out@ =~= dec_u64(x as nat));
    }
    out
}

/// The decimal rendering of a signed number, as bytes.
pub fn fmt_i64(n: i64) -> (r: Vec<u8>)
    ensures
        r@ == dec_i64(n as int),
{
    let mut out: Vec<u8> = Vec::new();
    if n >= 0 {
        push_dec_u64(&mut out, n as u64);
    } else {
        out.push(45);
        let m: u64 = ((-(n + 1)) as u64) + 1;
        proof {
            assert(m == -(n as int));
        }
        push_dec_u64(&mut out, m);
        proof {
            assert(out@ =~= dec_i64(n as int));
        }
    }
    out
}

/// The replacement character that stands in for a malformed byte.
pub open spec fn replacement() -> char {
    '\u{fffd}'
}

/// A continuation byte.
pub open spec fn is_cont_b(b: u8) -> bool {
    0x80 <= b <= 0xbf
}

/// The continuation bytes a three-byte leading byte admits in second
/// position: the ranges that rule out overlong encodings (after `E0`) and
/// surrogates (after `ED`).
pub open spec fn first_cont3_ok(b0: u8, b1: u8) -> bool {
    if b0 == 0xe0 {
        0xa0 <= b1 <= 0xbf
    } else if b0 == 0xed {
        0x80 <= b1 <= 0x9f
    } else {
        is_cont_b(b1)
    }
}

/// The continuation bytes a four-byte leading byte admits in second
/// position: the ranges that rule out overlong encodings (after `F0`) and
/// values past the last scalar (after `F4`).
pub open spec fn first_cont4_ok(b0: u8, b1: u8) -> bool {
    if b0 == 0xf0 {
        0x90 <= b1 <= 0xbf
    } else if b0 == 0xf4 {
        0x80 <= b1 <= 0x8f
    } else {
        is_cont_b(b1)
    }
}

/// Length of the maximal subpart of a scalar encoding at the front of a
/// malformed byte string: the longest prefix that could still grow into a
/// well-formed encoding.  One replacement character stands in for exactly
/// these bytes.
pub open spec fn subpart_len(bytes: Seq<u8>) -> int
    recommends
        bytes.len() > 0,
{
    let b0 = bytes[0];
    if 0xe0 <= b0 <= 0xef {
        if bytes.len() >= 2 && first_cont3_ok(b0, bytes[1]) {
            2
        } else {
            1
        }
    } else if 0xf0 <= b0 <= 0xf4 {
        if bytes.len() >= 2 && first_cont4_ok(b0, bytes[1]) {
            if bytes.len() >= 3 && is_cont_b(bytes[2]) {
                3
            } else {
                2
            }
        } else {
            1
        }
    } else {
        1
    }
}

/// Decoding of arbitrary bytes into characters: each well-formed scalar
/// encoding decodes to its scalar, and each maximal subpart of one becomes
/// a single replacement character.
pub open spec fn lossy_decode(bytes: Seq<u8>) -> Seq<char>
    decreases bytes.len(),
{
    if bytes.len() == 0 {
        Seq::<char>::empty()
    } else if valid_first_scalar(bytes) && 1 <= length_of_first_scalar(bytes) <= bytes.len() {
        seq![decode_first_scalar(bytes) as char] + lossy_decode(pop_first_scalar(bytes))
    } else {
        seq![replacement()] + lossy_decode(bytes.skip(subpart_len(bytes)))
    }
}

/// A well-formed first scalar uses between one and four bytes, all present.
proof fn lemma_first_scalar_len(bytes: Seq<u8>)
    requires
        valid_first_scalar(bytes),
    ensures
        1 <= length_of_first_scalar(bytes) <= 4,
        length_of_first_scalar(bytes) <= bytes.len(),
{
}

/// The bytes of a well-formed first scalar are themselves a valid encoding,
/// and decode to the same scalar.
proof fn lemma_take_first_valid(bytes: Seq<u8>)
    requires
        valid_first_scalar(bytes),
    ensures
        valid_utf8(take_first_scalar(bytes)),
        valid_first_scalar(take_first_scalar(bytes)),
        decode_first_scalar(take_first_scalar(bytes)) == decode_first_scalar(bytes),
        length_of_first_scalar(take_first_scalar(bytes)) == length_of_first_scalar(bytes),
{
    lemma_first_scalar_len(bytes);
    let l = length_of_first_scalar(bytes);
    let take = take_first_scalar(bytes);
    assert(take.len() == l);
    assert(forall|j: int| 0 <= j < l ==> take[j] == bytes[j]);
    assert(valid_first_scalar(take));
    assert(pop_first_scalar(take) =~= Seq::<u8>::empty());
    assert(valid_utf8(pop_first_scalar(take)));
}

/// The encoding of the first scalar's character is exactly the bytes it was
/// decoded from.
proof fn lemma_first_scalar_encode(bytes: Seq<u8>)
    requires
        valid_first_scalar(bytes),
    ensures
        encode_scalar((decode_first_scalar(bytes) as char) as u32) == take_first_scalar(bytes),
{
    lemma_take_first_valid(bytes);
    let take = take_first_scalar(bytes);
    vstd::utf8::decode_utf8_first_scalar(take);
    assert(take_first_scalar(take) =~= take);
}

/// Encoding one more character appends that character's encoding.
proof fn lemma_encode_push(chars: Seq<char>, c: char)
    ensures
        encode_utf8(chars.push(c)) == encode_utf8(chars) + encode_scalar(c as u32),
    decreases chars.len(),
{
    if chars.len() == 0 {
        assert(chars.push(c).drop_first() =~= Seq::<char>::empty());
        assert(chars.push(c)[0] == c);
        assert(encode_utf8(chars.push(c)) == encode_scalar(c as u32) + encode_utf8(
            Seq::<char>::empty(),
        ));
        assert(encode_utf8(chars.push(c)) =~= encode_utf8(chars) + encode_scalar(c as u32));
    } else {
        assert(chars.push(c).drop_first() =~= chars.drop_first().push(c));
        assert(chars.push(c)[0] == chars[0]);
        lemma_encode_push(chars.drop_first(), c);
        assert(encode_utf8(chars.push(c)) == encode_scalar(chars[0] as u32) + (encode_utf8(
            chars.drop_first(),
        ) + encode_scalar(c as u32)));
        assert(encode_utf8(chars.push(c)) =~= encode_utf8(chars) + encode_scalar(c as u32));
    }
}

/// On a valid encoding the lossy decoding is the exact decoding.
pub proof fn lemma_lossy_of_valid(bytes: Seq<u8>)
    requires
        valid_utf8(bytes),
    ensures
        lossy_decode(bytes) == decode_utf8(bytes),
    decreases bytes.len(),
{
    if bytes.len() > 0 {
        lemma_first_scalar_len(bytes);
        lemma_lossy_of_valid(pop_first_scalar(bytes));
    }
}

/// Lossily decoding the encoding of a character sequence gives that
/// sequence back.
pub proof fn lemma_lossy_encode(chars: Seq<char>)
    ensures
        lossy_decode(encode_utf8(chars)) == chars,
{
    broadcast use vstd::utf8::encode_utf8_valid_utf8;
    broadcast use vstd::utf8::encode_utf8_decode_utf8;

    lemma_lossy_of_valid(encode_utf8(chars));
}

/// Two character sequences are equal exactly when their encodings are.
pub proof fn lemma_encode_eq(a: Seq<char>, b: Seq<char>)
    ensures
        (encode_utf8(a) == encode_utf8(b)) <==> (a == b),
{
    broadcast use vstd::utf8::encode_utf8_decode_utf8;

    if encode_utf8(a) == encode_utf8(b) {
        assert(decode_utf8(encode_utf8(a)) == decode_utf8(encode_utf8(b)));
    }
}

/// Classify the bytes at `i`: the length of the well-formed scalar
/// encoding starting there, or else the length of the maximal subpart one
/// replacement character stands in for.
fn scan_first_scalar(bytes: &[u8], i: usize) -> (r: Result<usize, usize>)
    requires
        i < bytes@.len(),
    ensures
        match r {
            Ok(l) => valid_first_scalar(bytes@.skip(i as int)) && l == length_of_first_scalar(
                bytes@.skip(i as int),
            ) && 1 <= l <= 4 && i + l <= bytes@.len(),
            Err(a) => !valid_first_scalar(bytes@.skip(i as int)) && a == subpart_len(
                bytes@.skip(i as int),
            ) && 1 <= a <= 3 && i + a <= bytes@.len(),
        },
{
    let ghost suffix = bytes@.skip(i as int);
    proof {
        assert(suffix.len() == bytes@.len() - i);
        assert(forall|j: int| 0 <= j < suffix.len() ==> suffix[j] == bytes@[i + j]);
    }
    let n = bytes.len();
    let b0 = bytes[i];
    if b0 <= 0x7f {
        proof {
            assert(((b0 & 0x7f) as u32) <= 0x7fu32) by (bit_vector);
        }
        return Ok(1);
    }
    if 0xc0 <= b0 && b0 <= 0xdf {
        // a two-byte encoding, overlong below 0xc2
        if 0xc2 <= b0 && n - i >= 2 && 0x80 <= bytes[i + 1] && bytes[i + 1] <= 0xbf {
            let b1 = bytes[i + 1];
            proof {
                assert(0xc2 <= b0 <= 0xdf && 0x80 <= b1 <= 0xbf ==> ((((b0 & 0x1f) as u32)
                    << 6u32) | ((b1 & 0x3f) as u32)) >= 0x80u32) by (bit_vector);
                assert(0xc0 <= b0 <= 0xdf && 0x80 <= b1 <= 0xbf ==> ((((b0 & 0x1f) as u32)
                    << 6u32) | ((b1 & 0x3f) as u32)) <= 0x7ffu32) by (bit_vector);
            }
            return Ok(2);
        }
        proof {
            if suffix.len() >= 2 && is_cont_b(suffix[1]) {
                let b1 = bytes@[i + 1];
                assert(0xc0 <= b0 <= 0xc1 && 0x80 <= b1 <= 0xbf ==> ((((b0 & 0x1f) as u32)
                    << 6u32) | ((b1 & 0x3f) as u32)) < 0x80u32) by (bit_vector);
            }
        }
        return Err(1);
    }
    if 0xe0 <= b0 && b0 <= 0xef {
        // a three-byte encoding; the second byte's range also rules out
        // overlong encodings and surrogates
        let cont1 = n - i >= 2 && {
            let b1 = bytes[i + 1];
            if b0 == 0xe0 {
                0xa0 <= b1 && b1 <= 0xbf
            } else if b0 == 0xed {
                0x80 <= b1 && b1 <= 0x9f
            } else {
                0x80 <= b1 && b1 <= 0xbf
            }
        };
        if !cont1 {
            proof {
                if suffix.len() >= 2 && is_cont_b(suffix[1]) && suffix.len() >= 3 && is_cont_b(
                    suffix[2],
                ) {
                    let b1 = bytes@[i + 1];
                    let b2 = bytes@[i + 2];
                    assert(b0 == 0xe0 && 0x80 <= b1 < 0xa0 && 0x80 <= b2 <= 0xbf ==> ((((b0
                        & 0x0f) as u32) << 12u32) | (((b1 & 0x3f) as u32) << 6u32) | ((b2
                        & 0x3f) as u32)) < 0x800u32) by (bit_vector);
                    assert(b0 == 0xed && 0xa0 <= b1 <= 0xbf && 0x80 <= b2 <= 0xbf ==> 0xd800u32
                        <= ((((b0 & 0x0f) as u32) << 12u32) | (((b1 & 0x3f) as u32) << 6u32)
                        | ((b2 & 0x3f) as u32)) <= 0xdfffu32) by (bit_vector);
                }
            }
            return Err(1);
        }
        if n - i >= 3 && 0x80 <= bytes[i + 2] && bytes[i + 2] <= 0xbf {
            let b1 = bytes[i + 1];
            let b2 = bytes[i + 2];
            proof {
                assert(0xe0 <= b0 <= 0xef && 0x80 <= b1 <= 0xbf && 0x80 <= b2 <= 0xbf && (b0
                    != 0xe0 || b1 >= 0xa0) ==> ((((b0 & 0x0f) as u32) << 12u32) | (((b1
                    & 0x3f) as u32) << 6u32) | ((b2 & 0x3f) as u32)) >= 0x800u32)
                    by (bit_vector);
                assert(0xe0 <= b0 <= 0xef && 0x80 <= b1 <= 0xbf && 0x80 <= b2 <= 0xbf && (b0
                    != 0xed || b1 <= 0x9f) ==> !(0xd800u32 <= ((((b0 & 0x0f) as u32) << 12u32)
                    | (((b1 & 0x3f) as u32) << 6u32) | ((b2 & 0x3f) as u32)) <= 0xdfffu32))
                    by (bit_vector);
                assert(0xe0 <= b0 <= 0xef && 0x80 <= b1 <= 0xbf && 0x80 <= b2 <= 0xbf ==> ((((b0
                    & 0x0f) as u32) << 12u32) | (((b1 & 0x3f) as u32) << 6u32) | ((b2
                    & 0x3f) as u32)) <= 0xffffu32) by (bit_vector);
            }
            return Ok(3);
        }
        return Err(2);
    }
    if 0xf0 <= b0 && b0 <= 0xf7 {
        // a four-byte encoding; the second byte's range also rules out
        // overlong encodings and values past the last scalar
        if b0 >= 0xf5 {
            proof {
                if suffix.len() >= 4 && is_cont_b(suffix[1]) && is_cont_b(suffix[2]) && is_cont_b(
                    suffix[3],
                ) {
                    let b1 = bytes@[i + 1];
                    let b2 = bytes@[i + 2];
                    let b3 = bytes@[i + 3];
                    assert(0xf5 <= b0 <= 0xf7 && 0x80 <= b1 <= 0xbf && 0x80 <= b2 <= 0xbf
                        && 0x80 <= b3 <= 0xbf ==> ((((b0 & 0x07) as u32) << 18u32) | (((b1
                        & 0x3f) as u32) << 12u32) | (((b2 & 0x3f) as u32) << 6u32) | ((b3
                        & 0x3f) as u32)) > 0x10ffffu32) by (bit_vector);
                }
            }
            return Err(1);
        }
        let cont1 = n - i >= 2 && {
            let b1 = bytes[i + 1];
            if b0 == 0xf0 {
                0x90 <= b1 && b1 <= 0xbf
            } else if b0 == 0xf4 {
                0x80 <= b1 && b1 <= 0x8f
            } else {
                0x80 <= b1 && b1 <= 0xbf
            }
        };
        if !cont1 {
            proof {
                if suffix.len() >= 4 && is_cont_b(suffix[1]) && is_cont_b(suffix[2]) && is_cont_b(
                    suffix[3],
                ) {
                    let b1 = bytes@[i + 1];
                    let b2 = bytes@[i + 2];
                    let b3 = bytes@[i + 3];
                    assert(b0 == 0xf0 && 0x80 <= b1 < 0x90 && 0x80 <= b2 <= 0xbf && 0x80 <= b3
                        <= 0xbf ==> ((((b0 & 0x07) as u32) << 18u32) | (((b1 & 0x3f) as u32)
                        << 12u32) | (((b2 & 0x3f) as u32) << 6u32) | ((b3 & 0x3f) as u32))
                        < 0x10000u32) by (bit_vector);
                    assert(b0 == 0xf4 && 0x90 <= b1 <= 0xbf && 0x80 <= b2 <= 0xbf && 0x80 <= b3
                        <= 0xbf ==> ((((b0 & 0x07) as u32) << 18u32) | (((b1 & 0x3f) as u32)
                        << 12u32) | (((b2 & 0x3f) as u32) << 6u32) | ((b3 & 0x3f) as u32))
                        > 0x10ffffu32) by (bit_vector);
                }
            }
            return Err(1);
        }
        if !(n - i >= 3 && 0x80 <= bytes[i + 2] && bytes[i + 2] <= 0xbf) {
            return Err(2);
        }
        if n - i >= 4 && 0x80 <= bytes[i + 3] && bytes[i + 3] <= 0xbf {
            let b1 = bytes[i + 1];
            let b2 = bytes[i + 2];
            let b3 = bytes[i + 3];
            proof {
                assert(0xf0 <= b0 <= 0xf4 && 0x80 <= b1 <= 0xbf && 0x80 <= b2 <= 0xbf && 0x80
                    <= b3 <= 0xbf && (b0 != 0xf0 || b1 >= 0x90) ==> ((((b0 & 0x07) as u32)
                    << 18u32) | (((b1 & 0x3f) as u32) << 12u32) | (((b2 & 0x3f) as u32)
                    << 6u32) | ((b3 & 0x3f) as u32)) >= 0x10000u32) by (bit_vector);
                assert(0xf0 <= b0 <= 0xf4 && 0x80 <= b1 <= 0xbf && 0x80 <= b2 <= 0xbf && 0x80
                    <= b3 <= 0xbf && (b0 != 0xf4 || b1 <= 0x8f) ==> ((((b0 & 0x07) as u32)
                    << 18u32) | (((b1 & 0x3f) as u32) << 12u32) | (((b2 & 0x3f) as u32)
                    << 6u32) | ((b3 & 0x3f) as u32)) <= 0x10ffffu32) by (bit_vector);
            }
            return Ok(4);
        }
        return Err(3);
    }
    // a stray continuation byte, or a byte no encoding starts with
    Err(1)
}

/// Decode arbitrary bytes into a string: well-formed scalar encodings
/// decode exactly, and each malformed byte becomes the replacement
/// character.  No input is ever rejected.
pub fn lossy_to_string(bytes: &[u8]) -> (r: String)
    ensures
        r@ == lossy_decode(bytes@),
{
    broadcast use vstd::utf8::encode_utf8_valid_utf8;
    broadcast use vstd::utf8::encode_utf8_decode_utf8;

    let mut out: Vec<u8> = Vec::new();
    let ghost mut done = Seq::<char>::empty();
    let mut i: usize = 0;
    proof {
        assert(bytes@.skip(0) =~= bytes@);
        assert(out@ =~= encode_utf8(done));
    }
    while i < bytes.len()
        invariant
            0 <= i <= bytes@.len(),
            out@ == encode_utf8(done),
            lossy_decode(bytes@) == done + lossy_decode(bytes@.skip(i as int)),
        decreases bytes.len() - i,
    {
        let ghost suffix = bytes@.skip(i as int);
        proof {
            assert(suffix.len() == bytes@.len() - i);
            assert(forall|j: int| 0 <= j < suffix.len() ==> suffix[j] == bytes@[i + j]);
        }
        match scan_first_scalar(bytes, i) {
            Ok(l) => {
                proof {
                    lemma_first_scalar_encode(suffix);
                }
                let ghost ch = decode_first_scalar(suffix) as char;
                let piece = vstd::slice::slice_subrange(bytes, i, i + l);
                out.extend_from_slice(piece);
                proof {
                    assert(take_first_scalar(suffix) =~= bytes@.subrange(
                        i as int,
                        i as int + l as int,
                    ));
                    lemma_encode_push(done, ch);
                    assert(out@ =~= encode_utf8(done) + encode_scalar(ch as u32));
                    assert(out@ == encode_utf8(done.push(ch)));
                    assert(pop_first_scalar(suffix) =~= bytes@.skip(i as int + l as int));
                    assert(lossy_decode(suffix) == seq![ch] + lossy_decode(
                        bytes@.skip(i as int + l as int),
                    ));
                    assert(done + lossy_decode(suffix) =~= done.push(ch) + lossy_decode(
                        bytes@.skip(i as int + l as int),
                    ));
                    done = done.push(ch);
                }
                i = i + l;
            },
            Err(adv) => {
                out.push(0xef);
                out.push(0xbf);
                out.push(0xbd);
                proof {
                    assert(replacement() as u32 == 0xfffdu32);
                    assert(0xE0u8 | (((0xfffdu32 >> 12u32) & 0x0Fu32) as u8) == 0xefu8)
                        by (bit_vector);
                    assert(0x80u8 | (((0xfffdu32 >> 6u32) & 0x3Fu32) as u8) == 0xbfu8)
                        by (bit_vector);
                    assert(0x80u8 | ((0xfffdu32 & 0x3Fu32) as u8) == 0xbdu8) by (bit_vector);
                    assert(encode_scalar(0xfffdu32) =~= seq![0xefu8, 0xbfu8, 0xbdu8]);
                    lemma_encode_push(done, replacement());
                    assert(out@ =~= encode_utf8(done) + encode_scalar(replacement() as u32));
                    assert(out@ == encode_utf8(done.push(replacement())));
                    assert(suffix.skip(adv as int) =~= bytes@.skip(i as int + adv as int));
                    assert(lossy_decode(suffix) == seq![replacement()] + lossy_decode(
                        bytes@.skip(i as int + adv as int),
                    ));
                    assert(done + lossy_decode(suffix) =~= done.push(replacement())
                        + lossy_decode(bytes@.skip(i as int + adv as int)));
                    done = done.push(replacement());
                }
                i = i + adv;
            },
        }
    }
    proof {
        assert(bytes@.skip(i as int) =~= Seq::<u8>::empty());
        assert(lossy_decode(bytes@) =~= done);
        assert(valid_utf8(out@));
    }
    let s = string_from_valid_utf8(out);
    proof {
        assert(decode_utf8(encode_utf8(s@)) == decode_utf8(encode_utf8(done)));
        assert(s@ == done);
    }
    s
}

/// Relies on `String::from_utf8`: bytes that are a valid UTF-8 encoding are
/// accepted and become the string holding exactly those bytes.
#[verifier::external_body]
fn string_from_valid_utf8(bytes: Vec<u8>) -> (r: String)
    requires
        valid_utf8(bytes@),
    ensures
        encode_utf8(r@) == bytes@,
{
    match String::from_utf8(bytes) {
        Ok(s) => s,
        Err(_) => String::new(),
    }
}

} // verus!
