//! Base64 payload decoding.
//!
//! An in-app editor hands an edited raster back as a base64 payload,
//! optionally wrapped in a data-URL header (`data:image/png;base64,...`).
//! The decoder strips the header at the first comma, validates the base64
//! body — including its `=` padding — and produces the raw bytes, refusing
//! malformed input rather than guessing.

use vstd::prelude::*;

use crate::ShotError;

verus! {

/// The value of one base64 alphabet byte, or -1 for a byte outside the
/// alphabet.
pub open spec fn b64_value(c: u8) -> int {
    if 65 <= c <= 90 {
        c - 65
    } else if 97 <= c <= 122 {
        c - 97 + 26
    } else if 48 <= c <= 57 {
        c - 48 + 52
    } else if c == 43 {
        62
    } else if c == 47 {
        63
    } else {
        -1
    }
}

/// Whether the byte belongs to the base64 alphabet.
pub open spec fn is_b64_char(c: u8) -> bool {
    b64_value(c) >= 0
}

/// Whether `s` is well-formed base64: a multiple of four bytes of
/// alphabet characters, except that the last one or two may be `=`
/// padding, and a padded second-to-last byte forces a padded last one.
pub open spec fn b64_valid(s: Seq<u8>) -> bool {
    &&& s.len() % 4 == 0
    &&& forall|i: int|
        0 <= i < s.len() ==> (is_b64_char(#[trigger] s[i]) || (s[i] == 61 && i >= s.len() - 2))
    &&& (s.len() >= 2 && s[s.len() - 2] == 61 ==> s[s.len() - 1] == 61)
}

/// The three bytes of one unpadded base64 group with values
/// `a, b, c, d`.
pub open spec fn decode_group(a: int, b: int, c: int, d: int) -> Seq<u8> {
    seq![
        (a * 4 + b / 16) as u8,
        ((b % 16) * 16 + c / 4) as u8,
        ((c % 4) * 64 + d) as u8,
    ]
}

/// Decode of a sequence of whole, unpadded groups, peeling from the back.
pub open spec fn decode_groups(s: Seq<u8>) -> Seq<u8>
    decreases s.len(),
{
    if s.len() < 4 {
        Seq::empty()
    } else {
        decode_groups(s.take(s.len() - 4)) + decode_group(
            b64_value(s[s.len() - 4]),
            b64_value(s[s.len() - 3]),
            b64_value(s[s.len() - 2]),
            b64_value(s[s.len() - 1]),
        )
    }
}

/// The decode of well-formed base64, padding included: all whole groups,
/// then one or two bytes of a padded final group.
pub open spec fn b64_decode(s: Seq<u8>) -> Seq<u8> {
    if s.len() == 0 {
        Seq::empty()
    } else if s[s.len() - 1] == 61 {
        let head = s.take(s.len() - 4);
        let a = b64_value(s[s.len() - 4]);
        let b = b64_value(s[s.len() - 3]);
        let c = b64_value(s[s.len() - 2]);
        if s[s.len() - 2] == 61 {
            decode_groups(head) + seq![(a * 4 + b / 16) as u8]
        } else {
            decode_groups(head) + seq![(a * 4 + b / 16) as u8, ((b % 16) * 16 + c / 4) as u8]
        }
    } else {
        decode_groups(s)
    }
}

/// Looks up the base64 value of one byte.
fn b64_digit(c: u8) -> (r: i16)
    ensures
        r == b64_value(c),
{
    if 65 <= c && c <= 90 {
        (c - 65) as i16
    } else if 97 <= c && c <= 122 {
        c as i16 - 97 + 26
    } else if 48 <= c && c <= 57 {
        c as i16 - 48 + 52
    } else if c == 43 {
        62
    } else if c == 47 {
        63
    } else {
        -1
    }
}

/// Emits the three bytes of one unpadded group.
fn push_group(out: &mut Vec<u8>, a: i16, b: i16, c: i16, d: i16)
    requires
        0 <= a < 64,
        0 <= b < 64,
        0 <= c < 64,
        0 <= d < 64,
    ensures
        final(out)@ == old(out)@ + decode_group(a as int, b as int, c as int, d as int),
{
    out.push((a * 4 + b / 16) as u8);
    out.push(((b % 16) * 16 + c / 4) as u8);
    out.push(((c % 4) * 64 + d) as u8);
    assert(out@ =~= old(out)@ + decode_group(a as int, b as int, c as int, d as int));
}

/// Decodes a base64 body.
///
/// Returns the raw bytes exactly when the input is well-formed base64
/// ([`b64_valid`]); anything else — a length off a multiple of four, a
/// byte outside the alphabet, misplaced padding — is refused with
/// [`ShotError::DecodeError`].
pub fn base64_decode(input: &[u8]) -> (r: Result<Vec<u8>, ShotError>)
    ensures
        r is Ok <==> b64_valid(input@),
        r is Err ==> r == Err::<Vec<u8>, ShotError>(ShotError::DecodeError),
        r is Ok ==> r->Ok_0@ == b64_decode(input@),
{
    let n = input.len();
    if n % 4 != 0 {
        return Err(ShotError::DecodeError);
    }
    if n == 0 {
        let out: Vec<u8> = Vec::new();
        assert(out@ =~= b64_decode(input@));
        return Ok(out);
    }
    let mut out: Vec<u8> = Vec::new();
    let mut i: usize = 0;
    while i + 4 < n
        invariant
            n == input@.len(),
            n % 4 == 0,
            n > 0,
            i % 4 == 0,
            i + 4 <= n,
            forall|j: int| 0 <= j < i ==> is_b64_char(#[trigger] input@[j]),
            out@ == decode_groups(input@.take(i as int)),
        decreases n - i,
    {
        let a = b64_digit(input[i]);
        let b = b64_digit(input[i + 1]);
        let c = b64_digit(input[i + 2]);
        let d = b64_digit(input[i + 3]);
        if a < 0 || b < 0 || c < 0 || d < 0 {
            return Err(ShotError::DecodeError);
        }
        push_group(&mut out, a, b, c, d);
        proof {
            let t = input@.take(i + 4);
            assert(t.take(t.len() - 4) =~= input@.take(i as int));
            assert(t[t.len() - 4] == input@[i as int]);
            assert(t[t.len() - 3] == input@[i + 1]);
            assert(t[t.len() - 2] == input@[i + 2]);
            assert(t[t.len() - 1] == input@[i + 3]);
        }
        i = i + 4;
    }
    assert(i + 4 == n);
    let a = b64_digit(input[i]);
    let b = b64_digit(input[i + 1]);
    let c = b64_digit(input[i + 2]);
    let d = b64_digit(input[i + 3]);
    let c_pad = input[i + 2] == 61;
    let d_pad = input[i + 3] == 61;
    if a < 0 || b < 0 {
        return Err(ShotError::DecodeError);
    }
    if c_pad {
        if !d_pad {
            return Err(ShotError::DecodeError);
        }
        out.push((a * 4 + b / 16) as u8);
        proof {
            lemma_final_valid(input@, i as int);
            assert(input@.take(i as int) =~= input@.take(n - 4));
            assert(out@ =~= b64_decode(input@));
        }
        return Ok(out);
    }
    if c < 0 {
        return Err(ShotError::DecodeError);
    }
    if d_pad {
        out.push((a * 4 + b / 16) as u8);
        out.push(((b % 16) * 16 + c / 4) as u8);
        proof {
            lemma_final_valid(input@, i as int);
            assert(input@.take(i as int) =~= input@.take(n - 4));
            assert(out@ =~= b64_decode(input@));
        }
        return Ok(out);
    }
    if d < 0 {
        return Err(ShotError::DecodeError);
    }
    push_group(&mut out, a, b, c, d);
    proof {
        lemma_final_valid(input@, i as int);
        assert(input@.take(i as int) =~= input@.take(n - 4));
        assert(out@ =~= b64_decode(input@));
    }
    Ok(out)
}

/// If every byte before the last group is in the alphabet and the last
/// group is one of the three accepted shapes, the whole input is valid.
proof fn lemma_final_valid(s: Seq<u8>, i: int)
    requires
        s.len() % 4 == 0,
        i + 4 == s.len(),
        forall|j: int| 0 <= j < i ==> is_b64_char(#[trigger] s[j]),
        is_b64_char(s[i]),
        is_b64_char(s[i + 1]),
        (is_b64_char(s[i + 2]) && is_b64_char(s[i + 3])) || (is_b64_char(s[i + 2]) && s[i + 3]
            == 61) || (s[i + 2] == 61 && s[i + 3] == 61),
    ensures
        b64_valid(s),
{
}

/// Decodes an editor payload: a base64 body, possibly behind a data-URL
/// header that ends at the first comma.
///
/// With a comma at position `p` (and none before it), the body is
/// everything after it; without any comma the whole payload is the body.
/// The body is then decoded as by [`base64_decode`].
pub fn decode_payload(payload: &[u8]) -> (r: Result<Vec<u8>, ShotError>)
    ensures
        (forall|j: int| 0 <= j < payload@.len() ==> payload@[j] != 44) ==> ((r is Ok <==> b64_valid(
            payload@,
        )) && (r is Ok ==> r->Ok_0@ == b64_decode(payload@))),
        forall|p: int|
            (0 <= p < payload@.len() && payload@[p] == 44 && (forall|j: int|
                0 <= j < p ==> payload@[j] != 44)) ==> ((r is Ok <==> b64_valid(
                payload@.skip(p + 1),
            )) && (r is Ok ==> r->Ok_0@ == b64_decode(payload@.skip(p + 1)))),
        r is Err ==> r == Err::<Vec<u8>, ShotError>(ShotError::DecodeError),
{
    let n = payload.len();
    let mut i: usize = 0;
    while i < n
        invariant
            n == payload@.len(),
            i <= n,
            forall|j: int| 0 <= j < i ==> payload@[j] != 44,
        decreases n - i,
    {
        if payload[i] == 44 {
            let body = slice_tail(payload, i + 1);
            let r = base64_decode(body.as_slice());
            proof {
                assert forall|p: int|
                    (0 <= p < payload@.len() && payload@[p] == 44 && (forall|j: int|
                        0 <= j < p ==> payload@[j] != 44)) implies p == i as int by {
                    if p < i {
                        assert(payload@[p] != 44);
                    }
                    if p > i {
                        assert(payload@[i as int] != 44);
                    }
                }
            }
            return r;
        }
        i = i + 1;
    }
    base64_decode(payload)
}

/// The bytes of the slice from `from` to its end.
fn slice_tail(s: &[u8], from: usize) -> (out: Vec<u8>)
    requires
        from <= s@.len(),
    ensures
        out@ == s@.skip(from as int),
{
    let n = s.len();
    let mut out: Vec<u8> = Vec::new();
    let mut i: usize = from;
    while i < n
        invariant
            n == s@.len(),
            from <= i <= n,
            out@ =~= s@.subrange(from as int, i as int),
        decreases n - i,
    {
        out.push(s[i]);
        assert(out@ =~= s@.subrange(from as int, i + 1));
        i = i + 1;
    }
    assert(out@ =~= s@.skip(from as int));
    out
}

} // verus!
