//! Byte-level text utilities shared by the pipeline.
//!
//! Capture diagnostics, clipboard scripts and coordinate reports cross the
//! boundary as plain byte buffers; the searching, quoting and parsing that
//! the pipeline's decisions rest on is done here, verified.

use vstd::prelude::*;

verus! {

/// The ASCII lower-case image of one byte.
pub open spec fn ascii_lower(c: u8) -> u8 {
    if 65 <= c <= 90 {
        (c + 32) as u8
    } else {
        c
    }
}

/// Whether `needle` occurs in `hay` at position `i`, compared byte for byte
/// after ASCII case folding.
pub open spec fn matches_at(hay: Seq<u8>, needle: Seq<u8>, i: int) -> bool {
    &&& 0 <= i
    &&& i + needle.len() <= hay.len()
    &&& forall|j: int|
        0 <= j < needle.len() ==> ascii_lower(hay[i + j]) == ascii_lower(needle[j])
}

/// Whether `needle` occurs anywhere in `hay`, ASCII-case-insensitively.
pub open spec fn contains_ci(hay: Seq<u8>, needle: Seq<u8>) -> bool {
    exists|i: int| matches_at(hay, needle, i)
}

/// Case-insensitive (ASCII) substring search.
pub fn find_ci(hay: &[u8], needle: &[u8]) -> (r: bool)
    ensures
        r == contains_ci(hay@, needle@),
{
    let n = needle.len();
    let h = hay.len();
    if n > h {
        assert(forall|i: int| !matches_at(hay@, needle@, i));
        return false;
    }
    let mut i: usize = 0;
    while i <= h - n
        invariant
            n <= h <= hay@.len(),
            n == needle@.len(),
            h == hay@.len(),
            i <= h - n + 1,
            forall|k: int| 0 <= k < i ==> !matches_at(hay@, needle@, k),
        decreases h - n - i + 1,
    {
        let mut j: usize = 0;
        let mut hit = true;
        while j < n
            invariant
                n == needle@.len(),
                h == hay@.len(),
                i + n <= h,
                j <= n,
                hit == forall|t: int|
                    0 <= t < j ==> ascii_lower(hay@[i + t]) == ascii_lower(needle@[t]),
            decreases n - j,
        {
            let hc = hay[i + j];
            let nc = needle[j];
            let hl = if 65 <= hc && hc <= 90 {
                hc + 32
            } else {
                hc
            };
            let nl = if 65 <= nc && nc <= 90 {
                nc + 32
            } else {
                nc
            };
            if hl != nl {
                hit = false;
                j = n;
            } else {
                assert(ascii_lower(hay@[i + j]) == ascii_lower(needle@[j as int]));
                j = j + 1;
            }
        }
        if hit {
            assert(matches_at(hay@, needle@, i as int));
            return true;
        }
        assert(!matches_at(hay@, needle@, i as int));
        i = i + 1;
    }
    assert(forall|k: int| matches_at(hay@, needle@, k) ==> 0 <= k < i);
    false
}

/// `s` with every double quote preceded by a backslash, so the text can
/// stand inside a quoted scripting-command literal.
pub open spec fn escaped_quotes(s: Seq<u8>) -> Seq<u8>
    decreases s.len(),
{
    if s.len() == 0 {
        Seq::empty()
    } else if s.last() == 34 {
        escaped_quotes(s.drop_last()) + seq![92u8, 34u8]
    } else {
        escaped_quotes(s.drop_last()) + seq![s.last()]
    }
}

/// Escapes double quotes with backslashes.
pub fn escape_quotes(s: &[u8]) -> (out: Vec<u8>)
    ensures
        out@ == escaped_quotes(s@),
{
    let n = s.len();
    let mut out: Vec<u8> = Vec::new();
    let mut i: usize = 0;
    while i < n
        invariant
            n == s@.len(),
            i <= n,
            out@ == escaped_quotes(s@.take(i as int)),
        decreases n - i,
    {
        let c = s[i];
        if c == 34 {
            out.push(92);
            out.push(34);
        } else {
            out.push(c);
        }
        proof {
            let t = s@.take(i + 1);
            assert(t.drop_last() =~= s@.take(i as int));
            assert(t.last() == s@[i as int]);
            if c == 34 {
                assert(out@ =~= escaped_quotes(s@.take(i as int)) + seq![92u8, 34u8]);
            } else {
                assert(out@ =~= escaped_quotes(s@.take(i as int)) + seq![c]);
            }
        }
        i = i + 1;
    }
    assert(s@.take(n as int) =~= s@);
    out
}

} // verus!
