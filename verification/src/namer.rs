//! Collision-free output file naming.
//!
//! A capture or export writes to a fresh path derived from a semantic prefix
//! (such as `screenshot`), the capture timestamp, and a per-run sequence
//! counter. Both numeric components are embedded as fixed-width decimal
//! fields, which makes the derivation injective in the counter: any two
//! names produced in one run differ, at any cadence, however close their
//! timestamps. The names use ASCII only.

use vstd::prelude::*;

verus! {

/// `10^w`.
pub open spec fn pow10(w: nat) -> int
    decreases w,
{
    if w == 0 {
        1
    } else {
        10 * pow10((w - 1) as nat)
    }
}

/// The `w` least significant decimal digits of `n`, most significant first,
/// as ASCII bytes, zero-padded on the left.
pub open spec fn digits_fixed(n: int, w: nat) -> Seq<u8>
    decreases w,
{
    if w == 0 {
        Seq::empty()
    } else {
        digits_fixed(n / 10, (w - 1) as nat).push((n % 10 + 48) as u8)
    }
}

/// A fixed-width digit field always has its declared width.
pub proof fn lemma_digits_len(n: int, w: nat)
    ensures
        digits_fixed(n, w).len() == w,
    decreases w,
{
    if w > 0 {
        lemma_digits_len(n / 10, (w - 1) as nat);
    }
}

/// Within its range, the fixed-width digit field determines the number:
/// two numbers below `10^w` with the same digits are the same number.
pub proof fn lemma_digits_injective(n1: int, n2: int, w: nat)
    requires
        0 <= n1 < pow10(w),
        0 <= n2 < pow10(w),
        digits_fixed(n1, w) == digits_fixed(n2, w),
    ensures
        n1 == n2,
    decreases w,
{
    if w == 0 {
        assert(pow10(0) == 1);
    } else {
        lemma_digits_len(n1 / 10, (w - 1) as nat);
        lemma_digits_len(n2 / 10, (w - 1) as nat);
        let d1 = digits_fixed(n1, w);
        let d2 = digits_fixed(n2, w);
        assert(d1.last() == (n1 % 10 + 48) as u8);
        assert(d2.last() == (n2 % 10 + 48) as u8);
        assert(n1 % 10 == n2 % 10);
        assert(d1.drop_last() =~= digits_fixed(n1 / 10, (w - 1) as nat));
        assert(d2.drop_last() =~= digits_fixed(n2 / 10, (w - 1) as nat));
        assert(n1 / 10 < pow10((w - 1) as nat) && n2 / 10 < pow10((w - 1) as nat)) by (
        nonlinear_arith)
            requires
                0 <= n1 < 10 * pow10((w - 1) as nat),
                0 <= n2 < 10 * pow10((w - 1) as nat),
        ;
        lemma_digits_injective(n1 / 10, n2 / 10, (w - 1) as nat);
        assert(n1 == 10 * (n1 / 10) + n1 % 10);
        assert(n2 == 10 * (n2 / 10) + n2 % 10);
    }
}

/// Width of each numeric field: twenty decimal digits hold any 64-bit
/// counter or millisecond timestamp.
pub const STAMP_WIDTH: u32 = 20;

/// The derived file name, as bytes:
/// `prefix '_' stamp[20] '_' seq_no[20] '.' ext`.
pub open spec fn spec_filename(prefix: Seq<u8>, ext: Seq<u8>, stamp: int, seq_no: int) -> Seq<u8> {
    prefix + seq![95u8] + digits_fixed(stamp, STAMP_WIDTH as nat) + seq![95u8] + digits_fixed(
        seq_no,
        STAMP_WIDTH as nat,
    ) + seq![46u8] + ext
}

/// Appends every byte of `s` to `out`.
pub fn push_all(out: &mut Vec<u8>, s: &[u8])
    ensures
        final(out)@ == old(out)@ + s@,
{
    let n = s.len();
    let mut i: usize = 0;
    while i < n
        invariant
            n == s@.len(),
            i <= n,
            out@ == old(out)@ + s@.take(i as int),
        decreases n - i,
    {
        out.push(s[i]);
        assert(out@ =~= old(out)@ + s@.take(i + 1));
        i = i + 1;
    }
    assert(out@ =~= old(out)@ + s@);
}

/// Appends the `w`-digit zero-padded decimal rendering of `n`.
pub fn push_digits(out: &mut Vec<u8>, n: u64, w: u32)
    ensures
        final(out)@ == old(out)@ + digits_fixed(n as int, w as nat),
    decreases w,
{
    if w == 0 {
        assert(old(out)@ + digits_fixed(n as int, 0) =~= old(out)@);
    } else {
        push_digits(out, n / 10, w - 1);
        out.push((n % 10) as u8 + 48);
        assert(out@ =~= old(out)@ + digits_fixed(n as int, w as nat));
    }
}

/// Builds the file name for one capture or export.
pub fn build_filename(prefix: &[u8], ext: &[u8], stamp: u64, seq_no: u64) -> (r: Vec<u8>)
    ensures
        r@ == spec_filename(prefix@, ext@, stamp as int, seq_no as int),
{
    let mut out: Vec<u8> = Vec::new();
    push_all(&mut out, prefix);
    out.push(95);
    push_digits(&mut out, stamp, STAMP_WIDTH);
    out.push(95);
    push_digits(&mut out, seq_no, STAMP_WIDTH);
    out.push(46);
    push_all(&mut out, ext);
    assert(out@ =~= spec_filename(prefix@, ext@, stamp as int, seq_no as int));
    out
}

/// Names produced in one run are pairwise distinct: however the timestamps
/// fall — equal, or apart within any window — two names with the same
/// prefix and extension but different sequence counters differ.
pub proof fn lemma_filenames_distinct(
    prefix: Seq<u8>,
    ext: Seq<u8>,
    stamp1: int,
    seq1: int,
    stamp2: int,
    seq2: int,
)
    requires
        0 <= stamp1,
        0 <= stamp2,
        0 <= seq1 < pow10(STAMP_WIDTH as nat),
        0 <= seq2 < pow10(STAMP_WIDTH as nat),
        seq1 != seq2,
    ensures
        spec_filename(prefix, ext, stamp1, seq1) != spec_filename(prefix, ext, stamp2, seq2),
{
    let w = STAMP_WIDTH as nat;
    lemma_digits_len(stamp1, w);
    lemma_digits_len(stamp2, w);
    lemma_digits_len(seq1, w);
    lemma_digits_len(seq2, w);
    let f1 = spec_filename(prefix, ext, stamp1, seq1);
    let f2 = spec_filename(prefix, ext, stamp2, seq2);
    let start = prefix.len() + 1 + w + 1;
    if f1 == f2 {
        assert forall|j: int| 0 <= j < w implies digits_fixed(seq1, w)[j] == digits_fixed(
            seq2,
            w,
        )[j] by {
            assert(f1[start + j] == digits_fixed(seq1, w)[j]);
            assert(f2[start + j] == digits_fixed(seq2, w)[j]);
        }
        assert(digits_fixed(seq1, w) =~= digits_fixed(seq2, w));
        lemma_digits_injective(seq1, seq2, w);
    }
}

/// Every u64 fits in the twenty-digit field.
pub proof fn lemma_u64_below_pow10_20(n: u64)
    ensures
        0 <= n < pow10(STAMP_WIDTH as nat),
{
    reveal_with_fuel(pow10, 21);
    assert(pow10(20) == 100000000000000000000);
}

/// Derives collision-free file names for one process run.
///
/// The sequence counter starts at zero and advances by one per name; with
/// the fixed-width fields of [`spec_filename`] this makes every name of a
/// run unique, regardless of the timestamps handed in.
pub struct FileNamer {
    next_seq: u64,
}

impl FileNamer {
    /// The counter the next name will carry.
    pub closed spec fn spec_next_seq(self) -> u64 {
        self.next_seq
    }

    pub fn new() -> (n: FileNamer)
        ensures
            n.spec_next_seq() == 0,
    {
        FileNamer { next_seq: 0 }
    }

    /// Produces the next name of this run, embedding the millisecond
    /// timestamp supplied by the boundary and this run's sequence counter.
    ///
    /// The counter advances by one per call; at the last representable
    /// value it stays put, so the call is total.
    pub fn generate_filename(&mut self, prefix: &[u8], ext: &[u8], stamp_millis: u64) -> (r: Vec<
        u8,
    >)
        ensures
            r@ == spec_filename(
                prefix@,
                ext@,
                stamp_millis as int,
                old(self).spec_next_seq() as int,
            ),
            old(self).spec_next_seq() < u64::MAX ==> final(self).spec_next_seq() == old(
                self,
            ).spec_next_seq() + 1,
            old(self).spec_next_seq() == u64::MAX ==> final(self).spec_next_seq() == u64::MAX,
    {
        let seq_no = self.next_seq;
        if self.next_seq < u64::MAX {
            self.next_seq = self.next_seq + 1;
        }
        build_filename(prefix, ext, stamp_millis, seq_no)
    }
}

/// Joins a directory and a file name with a single separator, adding a
/// slash only when the directory is non-empty and does not already end in
/// one.
pub fn join_path(dir: &[u8], name: &[u8]) -> (r: Vec<u8>)
    ensures
        dir@.len() == 0 ==> r@ == name@,
        dir@.len() > 0 && dir@.last() == 47 ==> r@ == dir@ + name@,
        dir@.len() > 0 && dir@.last() != 47 ==> r@ == dir@ + seq![47u8] + name@,
{
    let mut out: Vec<u8> = Vec::new();
    if dir.len() == 0 {
        push_all(&mut out, name);
        return out;
    }
    push_all(&mut out, dir);
    if dir[dir.len() - 1] != 47 {
        out.push(47);
        assert(out@ =~= dir@ + seq![47u8]);
    }
    push_all(&mut out, name);
    out
}

/// Relies on `String::from_utf8`: a sequence of bytes below 128 is valid
/// UTF-8, one byte per code point, and decodes to the characters of the
/// same numeric values.
#[verifier::external_body]
pub fn ascii_bytes_to_string(v: Vec<u8>) -> (r: String)
    requires
        forall|i: int| 0 <= i < v@.len() ==> v@[i] < 128,
    ensures
        r@.len() == v@.len(),
        forall|i: int| 0 <= i < v@.len() ==> r@[i] == v@[i] as char,
        forall|i: int| 0 <= i < v@.len() ==> r@[i] as u8 == v@[i],
{
    match String::from_utf8(v) {
        Ok(s) => s,
        Err(_) => String::new(),
    }
}

/// Two ASCII strings over distinct byte sequences are distinct: the
/// byte-level uniqueness of [`lemma_filenames_distinct`] carries over to
/// the `String` values handed to the filesystem.
pub proof fn lemma_ascii_view_distinct(c1: Seq<char>, c2: Seq<char>, b1: Seq<u8>, b2: Seq<u8>)
    requires
        c1.len() == b1.len(),
        c2.len() == b2.len(),
        forall|i: int| 0 <= i < b1.len() ==> c1[i] as u8 == b1[i],
        forall|i: int| 0 <= i < b2.len() ==> c2[i] as u8 == b2[i],
        b1 != b2,
    ensures
        c1 != c2,
{
    if c1 == c2 {
        assert(b1 =~= b2);
    }
}

} // verus!
