//! Multi-monitor geometry.
//!
//! Each attached display contributes one capture artifact together with its
//! rectangle. Platform-native display origins may be negative or use mixed
//! sign conventions; the resolver translates them into a single global space
//! whose reference origin is the top-left of the desktop's bounding box, so
//! a region-selection surface can address every display with non-negative
//! coordinates. Display rectangles never overlap; translation keeps that
//! invariant, and a checker verifies it for an arbitrary enumerated set.

use vstd::prelude::*;

verus! {

/// One display's capture artifact plus its geometry in global coordinates.
#[derive(Clone, Debug)]
pub struct MonitorShot {
    /// Location of the raw raster on disk.
    pub path: String,
    /// Global x of the display's top-left pixel; may be negative before
    /// normalization.
    pub origin_x: i64,
    /// Global y of the display's top-left pixel.
    pub origin_y: i64,
    /// Width in pixels.
    pub width: u64,
    /// Height in pixels.
    pub height: u64,
    /// Device pixel ratio in percent (a 2x display reports 200), so the
    /// ratio needs no fractional number.
    pub scale_percent: u32,
}

/// Coordinate magnitude accepted by the resolver; keeps every difference of
/// two origins representable in a 64-bit signed machine word.
pub const COORD_BOUND: i64 = 0x2000_0000_0000_0000;

/// Whether the rectangles of two shots share no pixel.
pub open spec fn rect_disjoint(a: MonitorShot, b: MonitorShot) -> bool {
    ||| a.origin_x + a.width <= b.origin_x
    ||| b.origin_x + b.width <= a.origin_x
    ||| a.origin_y + a.height <= b.origin_y
    ||| b.origin_y + b.height <= a.origin_y
}

/// Whether no two shots of the sequence overlap in area.
pub open spec fn all_disjoint(s: Seq<MonitorShot>) -> bool {
    forall|i: int, j: int| 0 <= i < j < s.len() ==> #[trigger] rect_disjoint(s[i], s[j])
}

/// Whether every coordinate and extent of the shot lies within
/// [`COORD_BOUND`], the resolver's working range.
pub open spec fn shot_in_range(m: MonitorShot) -> bool {
    &&& -COORD_BOUND <= m.origin_x <= COORD_BOUND
    &&& -COORD_BOUND <= m.origin_y <= COORD_BOUND
    &&& m.width <= COORD_BOUND as u64
    &&& m.height <= COORD_BOUND as u64
}

/// Checks that no two monitor rectangles overlap in area.
pub fn monitors_disjoint(shots: &Vec<MonitorShot>) -> (r: bool)
    requires
        forall|i: int| 0 <= i < shots@.len() ==> #[trigger] shot_in_range(shots@[i]),
    ensures
        r == all_disjoint(shots@),
{
    let n = shots.len();
    let mut i: usize = 0;
    while i < n
        invariant
            n == shots@.len(),
            i <= n,
            forall|p: int| 0 <= p < shots@.len() ==> #[trigger] shot_in_range(shots@[p]),
            forall|p: int, q: int|
                0 <= p < q < shots@.len() && p < i ==> #[trigger] rect_disjoint(
                    shots@[p],
                    shots@[q],
                ),
        decreases n - i,
    {
        let mut j: usize = i + 1;
        while j < n
            invariant
                n == shots@.len(),
                i < j || i + 1 == j,
                i < n,
                i + 1 <= j <= n,
                forall|p: int| 0 <= p < shots@.len() ==> #[trigger] shot_in_range(shots@[p]),
                forall|q: int|
                    i < q < j ==> #[trigger] rect_disjoint(shots@[i as int], shots@[q]),
            decreases n - j,
        {
            let a = &shots[i];
            let b = &shots[j];
            let sep = (a.origin_x as i128 + a.width as i128 <= b.origin_x as i128) || (
            b.origin_x as i128 + b.width as i128 <= a.origin_x as i128) || (a.origin_y as i128
                + a.height as i128 <= b.origin_y as i128) || (b.origin_y as i128
                + b.height as i128 <= a.origin_y as i128);
            if !sep {
                assert(!rect_disjoint(shots@[i as int], shots@[j as int]));
                return false;
            }
            assert(rect_disjoint(shots@[i as int], shots@[j as int]));
            j = j + 1;
        }
        i = i + 1;
    }
    true
}

/// Translating every rectangle by one common offset changes no
/// disjointness: if no two shots of `s` overlapped, no two of the shifted
/// sequence `t` do, and conversely.
pub proof fn lemma_translation_preserves_disjoint(
    s: Seq<MonitorShot>,
    t: Seq<MonitorShot>,
    dx: int,
    dy: int,
)
    requires
        s.len() == t.len(),
        forall|i: int|
            0 <= i < s.len() ==> (#[trigger] t[i]).origin_x == s[i].origin_x + dx
                && t[i].origin_y == s[i].origin_y + dy && t[i].width == s[i].width && t[i].height
                == s[i].height,
    ensures
        all_disjoint(s) <==> all_disjoint(t),
{
    assert forall|i: int, j: int| 0 <= i < j < s.len() implies (rect_disjoint(s[i], s[j])
        <==> rect_disjoint(t[i], t[j])) by {
        assert(t[i].origin_x == s[i].origin_x + dx);
        assert(t[j].origin_x == s[j].origin_x + dx);
    }
}

/// The least origin_x of the sequence, or 0 for an empty one.
pub open spec fn spec_min_x(s: Seq<MonitorShot>) -> int
    decreases s.len(),
{
    if s.len() == 0 {
        0
    } else {
        let rest = spec_min_x(s.drop_last());
        if s.last().origin_x < rest {
            s.last().origin_x as int
        } else {
            rest
        }
    }
}

/// The least origin_y of the sequence, or 0 for an empty one.
pub open spec fn spec_min_y(s: Seq<MonitorShot>) -> int
    decreases s.len(),
{
    if s.len() == 0 {
        0
    } else {
        let rest = spec_min_y(s.drop_last());
        if s.last().origin_y < rest {
            s.last().origin_y as int
        } else {
            rest
        }
    }
}

/// Maps the enumerated displays into one consistent global space.
///
/// The reference origin becomes the top-left of the bounding box of all
/// displays and of the native origin `(0,0)`: every shot keeps its size,
/// scale and path, its origin is translated by one common offset, and all
/// resulting coordinates are non-negative. Relative geometry — adjacency,
/// distances, disjointness — is unchanged, since a single translation is
/// applied to every display.
pub fn normalize_monitors(shots: &Vec<MonitorShot>) -> (r: Vec<MonitorShot>)
    requires
        forall|i: int| 0 <= i < shots@.len() ==> #[trigger] shot_in_range(shots@[i]),
    ensures
        r@.len() == shots@.len(),
        forall|i: int|
            0 <= i < shots@.len() ==> (#[trigger] r@[i]).origin_x == shots@[i].origin_x - spec_min_x(
                shots@,
            ) && r@[i].origin_y == shots@[i].origin_y - spec_min_y(shots@) && r@[i].width
                == shots@[i].width && r@[i].height == shots@[i].height && r@[i].scale_percent
                == shots@[i].scale_percent && r@[i].path == shots@[i].path,
        forall|i: int|
            0 <= i < r@.len() ==> (#[trigger] r@[i]).origin_x >= 0 && r@[i].origin_y >= 0,
        all_disjoint(shots@) ==> all_disjoint(r@),
{
    let n = shots.len();
    let mut mnx: i64 = 0;
    let mut mny: i64 = 0;
    let mut k: usize = 0;
    while k < n
        invariant
            n == shots@.len(),
            k <= n,
            forall|i: int| 0 <= i < shots@.len() ==> #[trigger] shot_in_range(shots@[i]),
            mnx == spec_min_x(shots@.take(k as int)),
            mny == spec_min_y(shots@.take(k as int)),
            -COORD_BOUND <= mnx <= 0,
            -COORD_BOUND <= mny <= 0,
        decreases n - k,
    {
        assert(shots@.take(k + 1).drop_last() =~= shots@.take(k as int));
        assert(shots@.take(k + 1).last() == shots@[k as int]);
        assert(shot_in_range(shots@[k as int]));
        let s = &shots[k];
        if s.origin_x < mnx {
            mnx = s.origin_x;
        }
        if s.origin_y < mny {
            mny = s.origin_y;
        }
        k = k + 1;
    }
    assert(shots@.take(n as int) =~= shots@);
    let ghost gmnx = mnx as int;
    let ghost gmny = mny as int;
    proof {
        lemma_min_le_all_x(shots@);
        lemma_min_le_all_y(shots@);
    }
    let mut out: Vec<MonitorShot> = Vec::new();
    let mut k: usize = 0;
    while k < n
        invariant
            n == shots@.len(),
            k <= n,
            forall|i: int| 0 <= i < shots@.len() ==> #[trigger] shot_in_range(shots@[i]),
            mnx as int == gmnx,
            mny as int == gmny,
            gmnx == spec_min_x(shots@),
            gmny == spec_min_y(shots@),
            -COORD_BOUND <= mnx <= 0,
            -COORD_BOUND <= mny <= 0,
            forall|i: int| 0 <= i < shots@.len() ==> gmnx <= (#[trigger] shots@[i]).origin_x,
            forall|i: int| 0 <= i < shots@.len() ==> gmny <= (#[trigger] shots@[i]).origin_y,
            out@.len() == k,
            forall|i: int|
                0 <= i < k ==> (#[trigger] out@[i]).origin_x == shots@[i].origin_x - gmnx
                    && out@[i].origin_y == shots@[i].origin_y - gmny && out@[i].width
                    == shots@[i].width && out@[i].height == shots@[i].height
                    && out@[i].scale_percent == shots@[i].scale_percent && out@[i].path
                    == shots@[i].path,
        decreases n - k,
    {
        assert(shot_in_range(shots@[k as int]));
        assert(gmnx <= shots@[k as int].origin_x);
        assert(gmny <= shots@[k as int].origin_y);
        let s = &shots[k];
        let shifted = MonitorShot {
            path: s.path.clone(),
            origin_x: s.origin_x - mnx,
            origin_y: s.origin_y - mny,
            width: s.width,
            height: s.height,
            scale_percent: s.scale_percent,
        };
        assert(shifted.path@ == s.path@);
        out.push(shifted);
        k = k + 1;
    }
    proof {
        if all_disjoint(shots@) {
            lemma_translation_preserves_disjoint(shots@, out@, -gmnx, -gmny);
        }
    }
    out
}

/// The least origin_x bounds every origin_x of the sequence from below.
proof fn lemma_min_le_all_x(s: Seq<MonitorShot>)
    ensures
        forall|i: int| 0 <= i < s.len() ==> spec_min_x(s) <= (#[trigger] s[i]).origin_x,
        spec_min_x(s) <= 0,
    decreases s.len(),
{
    if s.len() > 0 {
        lemma_min_le_all_x(s.drop_last());
        assert forall|i: int| 0 <= i < s.len() implies spec_min_x(s) <= (
        #[trigger] s[i]).origin_x by {
            if i < s.len() - 1 {
                assert(s.drop_last()[i] == s[i]);
            }
        }
    }
}

/// The least origin_y bounds every origin_y of the sequence from below.
proof fn lemma_min_le_all_y(s: Seq<MonitorShot>)
    ensures
        forall|i: int| 0 <= i < s.len() ==> spec_min_y(s) <= (#[trigger] s[i]).origin_y,
        spec_min_y(s) <= 0,
    decreases s.len(),
{
    if s.len() > 0 {
        lemma_min_le_all_y(s.drop_last());
        assert forall|i: int| 0 <= i < s.len() implies spec_min_y(s) <= (
        #[trigger] s[i]).origin_y by {
            if i < s.len() - 1 {
                assert(s.drop_last()[i] == s[i]);
            }
        }
    }
}

/// Converts a length from UI space to pixel space by the display's device
/// pixel ratio, rounding down.
pub fn ui_to_pixels(ui: u32, scale_percent: u32) -> (r: u64)
    ensures
        r == ui * scale_percent / 100,
{
    let u = ui as u64;
    let s = scale_percent as u64;
    assert(u * s <= 0xFFFF_FFFFu64 * 0xFFFF_FFFFu64) by (nonlinear_arith)
        requires
            u <= 0xFFFF_FFFFu64,
            s <= 0xFFFF_FFFFu64,
    ;
    (u * s) / 100
}

} // verus!
