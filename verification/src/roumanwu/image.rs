//! Image unscrambling for CDN URLs that ship a shuffled page.
//!
//! Some chapter pages come back with `sr:1` in the path, meaning the image
//! rows have been reordered into horizontal bands. The band count is derived
//! from the URL (Base64-decoded key, MD5, last byte) and the bands are
//! re-stitched by [`scramble_plan`].
use vstd::prelude::*;

use crate::roumanwu::utils;
use crate::text;

verus! {

/// `sr:1` marks a scrambled page.
pub open spec fn is_scrambled_url(url: Seq<char>) -> bool {
    text::spec_contains(url, seq!['s', 'r', ':', '1'])
}

/// Does the URL carry the `sr:1` marker?
pub fn unscramble_image_url(url: &str) -> (r: bool)
    ensures
        r == is_scrambled_url(url@),
{
    let cs = text::to_chars(url);
    let marker = ['s', 'r', ':', '1'];
    assert(marker@ == seq!['s', 'r', ':', '1']);
    text::contains_exec(cs.as_slice(), &marker)
}

/// The final path segment without its last `.`-extension; empty when the
/// segment has no `.` (the segment's `.`-separated parts except the last,
/// joined by `.`).
pub open spec fn segment_stem(seg: Seq<char>) -> Seq<char> {
    match text::spec_rfind(seg, seq!['.']) {
        Some(q) => seg.subrange(0, q),
        None => Seq::empty(),
    }
}

/// Number of bands a scrambled URL was shuffled into: the last byte of the
/// MD5 of the Base64-decoded stem of the final path segment, modulo 10,
/// plus 5.
pub open spec fn slices_for(url: Seq<char>) -> int {
    let digest = utils::md5(utils::base64_decoded(segment_stem(text::last_path_segment(url))));
    (digest[15] % 10) as int + 5
}

/// Number of row slices a `sr:1` URL was shuffled into (5 to 14).
pub fn scramble_slices(url: &str) -> (r: Option<i32>)
    requires
        url@.len() < 0x2000_0000_0000_0000,
    ensures
        r == Some(slices_for(url@) as i32),
        5 <= slices_for(url@) <= 14,
{
    let cs = text::to_chars(url);
    let dot = ['.'];
    assert(dot@ == seq!['.']);
    let seg = text::last_segment_chars(cs.as_slice());
    proof {
        text::lemma_rfind_below(seg@, dot@, seg@.len() - 1);
    }
    let stem = match text::rfind_exec(seg.as_slice(), &dot) {
        Some(q) => text::sub_chars(seg.as_slice(), 0, q),
        None => Vec::new(),
    };
    assert(stem@ == segment_stem(seg@));
    let decoded = utils::base64_decode_chars(&stem);
    let hash = utils::md5_hash(decoded.as_slice());
    Some(((hash[15] % 10) as i32) + 5)
}

// ---------- Band permutation ----------

/// Band `l` of a `height`-row image shuffled into `n` bands, as
/// `(source_y, destination_y, rows)`. Band 0 carries the remainder rows and
/// comes from the bottom of the source; band `l` comes from the `l`-th band
/// counted upwards.
pub open spec fn plan_band(height: int, n: int, l: int) -> (int, int, int) {
    let sh = height / n;
    let off = height % n;
    if l == 0 {
        (height - sh - off, 0, sh + off)
    } else {
        (height - sh * (l + 1) - off, sh * l + off, sh)
    }
}

/// The bands that re-stitch a shuffled image of `height` rows.
pub fn scramble_plan(height: i32, num_slices: i32) -> (r: Vec<(i32, i32, i32)>)
    requires
        height >= 0,
        num_slices >= 1,
    ensures
        r@.len() == num_slices,
        forall|l: int|
            0 <= l < num_slices ==> {
                let (s, d, h) = #[trigger] r@[l];
                (s as int, d as int, h as int) == plan_band(height as int, num_slices as int, l)
            },
{
    let sh = height / num_slices;
    let off = height % num_slices;
    let mut r: Vec<(i32, i32, i32)> = Vec::new();
    let mut l: i32 = 0;
    proof {
        lemma_band_bounds(height as int, num_slices as int);
    }
    while l < num_slices
        invariant
            height >= 0,
            num_slices >= 1,
            sh == height / num_slices,
            off == height % num_slices,
            0 <= l <= num_slices,
            r@.len() == l,
            sh * num_slices + off == height,
            0 <= off < num_slices,
            sh >= 0,
            forall|m: int|
                0 <= m < l ==> {
                    let (s, d, h) = #[trigger] r@[m];
                    (s as int, d as int, h as int) == plan_band(height as int, num_slices as int, m)
                },
        decreases num_slices - l,
    {
        assert(sh * (l + 1) <= sh * num_slices) by (nonlinear_arith)
            requires
                sh >= 0,
                l + 1 <= num_slices,
        ;
        assert(sh * l <= sh * (l + 1)) by (nonlinear_arith)
            requires
                sh >= 0,
        ;
        assert(sh <= sh * num_slices) by (nonlinear_arith)
            requires
                sh >= 0,
                num_slices >= 1,
        ;
        if l == 0 {
            r.push((height - sh - off, 0, sh + off));
        } else {
            r.push((height - sh * (l + 1) - off, sh * l + off, sh));
        }
        l += 1;
    }
    r
}

proof fn lemma_band_bounds(height: int, n: int)
    requires
        height >= 0,
        n >= 1,
    ensures
        (height / n) * n + height % n == height,
        0 <= height % n < n,
        height / n >= 0,
{
    assert((height / n) * n + height % n == height) by (nonlinear_arith)
        requires
            n >= 1,
    ;
    assert(height / n >= 0) by (nonlinear_arith)
        requires
            n >= 1,
            height >= 0,
    ;
}

/// The bands re-stitch the image exactly: the destination bands tile rows
/// `0..height` top to bottom, and the source bands tile rows `0..height`
/// bottom to top, so every output row is copied from exactly one input row.
pub proof fn law_scramble_plan_is_row_permutation(height: int, n: int)
    requires
        height >= 0,
        n >= 1,
    ensures
        plan_band(height, n, 0).1 == 0,
        plan_band(height, n, 0).0 + plan_band(height, n, 0).2 == height,
        plan_band(height, n, n - 1).1 + plan_band(height, n, n - 1).2 == height,
        plan_band(height, n, n - 1).0 == 0,
        forall|l: int|
            0 <= l < n - 1 ==> #[trigger] plan_band(height, n, l).1 + plan_band(height, n, l).2
                == plan_band(height, n, l + 1).1,
        forall|l: int|
            0 <= l < n - 1 ==> #[trigger] plan_band(height, n, l + 1).0 + plan_band(
                height,
                n,
                l + 1,
            ).2 == plan_band(height, n, l).0,
        forall|l: int| 0 <= l < n ==> #[trigger] plan_band(height, n, l).2 >= 0,
{
    lemma_band_bounds(height, n);
    let sh = height / n;
    let off = height % n;
    assert forall|l: int| 0 <= l < n - 1 implies #[trigger] plan_band(height, n, l).1 + plan_band(
        height,
        n,
        l,
    ).2 == plan_band(height, n, l + 1).1 by {
        assert(sh * (l + 1) == sh * l + sh) by (nonlinear_arith);
    }
    assert forall|l: int| 0 <= l < n - 1 implies #[trigger] plan_band(height, n, l + 1).0
        + plan_band(height, n, l + 1).2 == plan_band(height, n, l).0 by {
        assert(sh * (l + 2) == sh * (l + 1) + sh) by (nonlinear_arith);
        assert(sh * (0 + 2) == sh + sh) by (nonlinear_arith);
        if l == 0 {
            assert(plan_band(height, n, 1).0 == height - sh * 2 - off);
        }
    }
    if n > 1 {
        assert(sh * ((n - 1) + 1) == sh * n) by (nonlinear_arith);
        assert(sh * (n - 1) + sh == sh * n) by (nonlinear_arith);
    }
}

} // verus!
