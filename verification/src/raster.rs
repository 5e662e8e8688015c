//! A byte container for rasters.
//!
//! Composition works on decoded pixel rectangles; on disk they travel as a
//! small self-describing container: width and height as four little-endian
//! bytes each, then the pixels row-major, four bytes `r g b a` per pixel.
//! Encoding and decoding are exact inverses, and a buffer that does not
//! declare its own length correctly is refused rather than guessed at.

use vstd::prelude::*;

use crate::ShotError;
use crate::compose::{Image, Pixel};

verus! {

/// The four little-endian bytes of a 32-bit value.
pub open spec fn le32(n: int) -> Seq<u8> {
    seq![
        (n % 256) as u8,
        ((n / 256) % 256) as u8,
        ((n / 65536) % 256) as u8,
        ((n / 16777216) % 256) as u8,
    ]
}

/// The 32-bit value of four little-endian bytes.
pub open spec fn le32_value(s: Seq<u8>) -> int {
    s[0] + 256 * (s[1] + 256 * (s[2] + 256 * s[3]))
}

/// The pixel buffer flattened to bytes, four per pixel.
pub open spec fn pixel_bytes(s: Seq<Pixel>) -> Seq<u8>
    decreases s.len(),
{
    if s.len() == 0 {
        Seq::empty()
    } else {
        pixel_bytes(s.drop_last()) + seq![s.last().r, s.last().g, s.last().b, s.last().a]
    }
}

/// The container bytes of a raster: both dimensions, then the pixels.
pub open spec fn container_bytes(img: Image) -> Seq<u8> {
    le32(img.width as int) + le32(img.height as int) + pixel_bytes(img.pixels@)
}

/// Appends the four little-endian bytes of `n`.
fn push_le32(out: &mut Vec<u8>, n: u32)
    ensures
        final(out)@ == old(out)@ + le32(n as int),
{
    out.push((n % 256) as u8);
    out.push(((n / 256) % 256) as u8);
    out.push(((n / 65536) % 256) as u8);
    out.push(((n / 16777216) % 256) as u8);
    assert(out@ =~= old(out)@ + le32(n as int));
}

/// Encodes a raster into its container bytes.
///
/// A raster with a side beyond the 32-bit header field cannot be written
/// and is refused with [`ShotError::EncodeError`].
pub fn encode_raster(img: &Image) -> (r: Result<Vec<u8>, ShotError>)
    requires
        img.wf(),
    ensures
        r is Ok <==> img.width <= u32::MAX && img.height <= u32::MAX,
        r is Err ==> r == Err::<Vec<u8>, ShotError>(ShotError::EncodeError),
        r is Ok ==> r->Ok_0@ == container_bytes(*img),
{
    if img.width as u64 > u32::MAX as u64 || img.height as u64 > u32::MAX as u64 {
        return Err(ShotError::EncodeError);
    }
    let mut out: Vec<u8> = Vec::new();
    push_le32(&mut out, img.width as u32);
    push_le32(&mut out, img.height as u32);
    let n = img.pixels.len();
    let mut k: usize = 0;
    while k < n
        invariant
            n == img.pixels@.len(),
            k <= n,
            out@ == le32(img.width as int) + le32(img.height as int) + pixel_bytes(
                img.pixels@.take(k as int),
            ),
        decreases n - k,
    {
        let p = img.pixels[k];
        out.push(p.r);
        out.push(p.g);
        out.push(p.b);
        out.push(p.a);
        proof {
            let t = img.pixels@.take(k + 1);
            assert(t.drop_last() =~= img.pixels@.take(k as int));
            assert(t.last() == img.pixels@[k as int]);
            assert(out@ =~= le32(img.width as int) + le32(img.height as int) + pixel_bytes(t));
        }
        k = k + 1;
    }
    assert(img.pixels@.take(n as int) =~= img.pixels@);
    Ok(out)
}

/// Whether `bytes` is a well-formed container: a full header whose
/// declared dimensions match the byte count exactly and fit this
/// machine's address range.
pub open spec fn container_valid(bytes: Seq<u8>) -> bool {
    &&& bytes.len() >= 8
    &&& le32_value(bytes.subrange(0, 4)) * le32_value(bytes.subrange(4, 8)) <= usize::MAX
    &&& bytes.len() == 8 + 4 * (le32_value(bytes.subrange(0, 4)) * le32_value(
        bytes.subrange(4, 8),
    ))
}

/// Reads the four little-endian bytes at `at`.
fn read_le32(bytes: &[u8], at: usize) -> (r: u32)
    requires
        at + 4 <= bytes@.len(),
    ensures
        r == le32_value(bytes@.subrange(at as int, at + 4)),
{
    let b0 = bytes[at] as u32;
    let b1 = bytes[at + 1] as u32;
    let b2 = bytes[at + 2] as u32;
    let b3 = bytes[at + 3] as u32;
    let ghost s = bytes@.subrange(at as int, at + 4);
    assert(s[0] == bytes@[at as int] && s[1] == bytes@[at + 1] && s[2] == bytes@[at + 2] && s[3]
        == bytes@[at + 3]);
    b0 + 256 * b1 + 65536 * b2 + 16777216 * b3
}

/// Decodes container bytes back into a raster.
///
/// Exactly the well-formed containers decode; anything else — a missing
/// header, a length that contradicts the declared size, a raster too
/// large for this machine — is refused with [`ShotError::DecodeError`].
/// Decoding inverts [`encode_raster`]: the container bytes of the result
/// are the input.
pub fn decode_raster(bytes: &[u8]) -> (r: Result<Image, ShotError>)
    ensures
        r is Ok <==> container_valid(bytes@),
        r is Err ==> r == Err::<Image, ShotError>(ShotError::DecodeError),
        r is Ok ==> {
            let img = r->Ok_0;
            &&& img.wf()
            &&& img.width == le32_value(bytes@.subrange(0, 4))
            &&& img.height == le32_value(bytes@.subrange(4, 8))
            &&& container_bytes(img) == bytes@
        },
{
    let n = bytes.len();
    if n < 8 {
        return Err(ShotError::DecodeError);
    }
    let w32 = read_le32(bytes, 0);
    let h32 = read_le32(bytes, 4);
    let wu = w32 as u64;
    let hu = h32 as u64;
    assert(wu * hu <= 0xFFFF_FFFFu64 * 0xFFFF_FFFFu64) by (nonlinear_arith)
        requires
            wu <= 0xFFFF_FFFFu64,
            hu <= 0xFFFF_FFFFu64,
    ;
    let total = wu * hu;
    if total > usize::MAX as u64 {
        return Err(ShotError::DecodeError);
    }
    if (n as u64 - 8) / 4 != total || (n - 8) % 4 != 0 {
        assert(8 + 4 * (wu * hu) != n) by (nonlinear_arith)
            requires
                (n as u64 - 8) / 4 != wu * hu || (n - 8) % 4 != 0,
                n >= 8,
                total == wu * hu,
        ;
        return Err(ShotError::DecodeError);
    }
    assert(n == 8 + 4 * total) by (nonlinear_arith)
        requires
            (n as u64 - 8) / 4 == total,
            (n - 8) % 4 == 0,
            n >= 8,
    ;
    let w = w32 as usize;
    let h = h32 as usize;
    let count = total as usize;
    let mut pixels: Vec<Pixel> = Vec::new();
    let mut k: usize = 0;
    while k < count
        invariant
            n == bytes@.len(),
            n == 8 + 4 * count,
            k <= count,
            pixels@.len() == k,
            pixel_bytes(pixels@) =~= bytes@.subrange(8, 8 + 4 * k),
        decreases count - k,
    {
        let base = 8 + 4 * k;
        let p = Pixel {
            r: bytes[base],
            g: bytes[base + 1],
            b: bytes[base + 2],
            a: bytes[base + 3],
        };
        let ghost prev = pixels@;
        pixels.push(p);
        proof {
            assert(pixels@.drop_last() =~= prev);
            assert(pixel_bytes(pixels@) =~= pixel_bytes(prev) + seq![p.r, p.g, p.b, p.a]);
            assert(pixel_bytes(pixels@) =~= bytes@.subrange(8, 8 + 4 * (k + 1)));
        }
        k = k + 1;
    }
    let img = Image { width: w, height: h, pixels };
    proof {
        assert(w * h == count) by (nonlinear_arith)
            requires
                w == wu,
                h == hu,
                count == wu * hu,
        ;
        assert(bytes@.subrange(8, 8 + 4 * count as int) =~= bytes@.skip(8));
        assert(le32(w as int) =~= bytes@.subrange(0, 4)) by {
            lemma_le32_round_trip(bytes@.subrange(0, 4));
        }
        assert(le32(h as int) =~= bytes@.subrange(4, 8)) by {
            lemma_le32_round_trip(bytes@.subrange(4, 8));
        }
        assert(container_bytes(img) =~= bytes@);
    }
    Ok(img)
}

/// Rebuilding the four bytes of a value read from four bytes gives the
/// same bytes back.
proof fn lemma_le32_round_trip(s: Seq<u8>)
    requires
        s.len() == 4,
    ensures
        le32(le32_value(s)) =~= s,
{
    let v = le32_value(s);
    assert(v % 256 == s[0] && (v / 256) % 256 == s[1] && (v / 65536) % 256 == s[2] && (v
        / 16777216) % 256 == s[3]) by (nonlinear_arith)
        requires
            v == s[0] + 256 * (s[1] + 256 * (s[2] + 256 * s[3])),
            0 <= s[0] < 256,
            0 <= s[1] < 256,
            0 <= s[2] < 256,
            0 <= s[3] < 256,
    ;
}

} // verus!
