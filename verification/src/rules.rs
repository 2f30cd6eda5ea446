//! The edge rules: one decision per pixel of the 2x2 destination block.
//!
//! Each rule weighs the contrast along one diagonal of the window against
//! the contrast along the other. Where the first is the smaller, an edge runs
//! through the block's corner: the corner becomes an even blend of the centre
//! with the nearer of the two neighbours that flank it. Otherwise the corner
//! repeats the centre.

use vstd::prelude::*;
use crate::blend::{blend_half, halfway};
use crate::color::{is_black, same_color};
use crate::metric::{
    diff, distance, lemma_distance_bound, lemma_distance_positive, lemma_distance_same_color, plus,
    product, sum, times, DISTANCE_BOUND,
};
use crate::single::lemma_rounded_near;
use crate::sampler::{CENTER, WINDOW};

verus! {

/// The distance between cells `i` and `j` of a window.
pub open spec fn d(m: Seq<u32>, i: int, j: int) -> int {
    distance(m[i], m[j])
}

/// The contrast along one diagonal: four cell pairs, and a fifth that counts
/// fourfold, summed from left to right in single precision.
#[verifier::opaque]
pub open spec fn contrast(
    m: Seq<u32>,
    a: (int, int),
    b: (int, int),
    c: (int, int),
    e: (int, int),
    axis: (int, int),
) -> int {
    sum(
        sum(sum(sum(d(m, a.0, a.1), d(m, b.0, b.1)), d(m, c.0, c.1)), d(m, e.0, e.1)),
        product(d(m, axis.0, axis.1), 4),
    )
}

/// The neighbour that the centre is blended with: `first` unless `second` is
/// strictly nearer to the centre.
pub open spec fn nearer(m: Seq<u32>, first: int, second: int) -> u32 {
    if d(m, CENTER as int, first) <= d(m, CENTER as int, second) {
        m[first]
    } else {
        m[second]
    }
}

/// The outcome of one rule, given the two contrasts and the two candidate
/// neighbours.
pub open spec fn resolve(m: Seq<u32>, along: int, across: int, first: int, second: int) -> u32 {
    if along < across {
        halfway(nearer(m, first, second), m[CENTER as int]) as u32
    } else {
        m[CENTER as int]
    }
}

/// The top-left pixel of the block.
pub open spec fn top_left(m: Seq<u32>) -> u32 {
    resolve(
        m,
        contrast(m, (10, 14), (10, 6), (4, 8), (4, 1), (9, 5)),
        contrast(m, (9, 15), (9, 3), (5, 11), (5, 0), (10, 4)),
        9,
        5,
    )
}

/// The top-right pixel of the block.
pub open spec fn top_right(m: Seq<u32>) -> u32 {
    resolve(
        m,
        contrast(m, (10, 16), (10, 4), (6, 12), (6, 1), (5, 11)),
        contrast(m, (11, 15), (11, 7), (9, 5), (5, 2), (10, 6)),
        5,
        11,
    )
}

/// The bottom-left pixel of the block.
pub open spec fn bottom_left(m: Seq<u32>) -> u32 {
    resolve(
        m,
        contrast(m, (10, 4), (10, 16), (14, 8), (14, 19), (9, 15)),
        contrast(m, (9, 5), (9, 13), (11, 15), (15, 18), (10, 14)),
        9,
        15,
    )
}

/// The bottom-right pixel of the block.
pub open spec fn bottom_right(m: Seq<u32>) -> u32 {
    resolve(
        m,
        contrast(m, (10, 6), (10, 14), (16, 12), (16, 19), (11, 15)),
        contrast(m, (9, 15), (15, 20), (15, 17), (5, 11), (10, 16)),
        11,
        15,
    )
}

/// The window has all its cells, and every cell shows the colour of the
/// centre.
pub open spec fn flat(m: Seq<u32>) -> bool {
    &&& m.len() == WINDOW
    &&& forall|i: int| 0 <= i < WINDOW ==> same_color(#[trigger] m[i], m[CENTER as int])
}

/// In a window of one colour no rule finds an edge: all four pixels of the
/// block repeat the centre.
pub proof fn lemma_flat_window(m: Seq<u32>)
    requires
        flat(m),
    ensures
        top_left(m) == m[CENTER as int],
        top_right(m) == m[CENTER as int],
        bottom_left(m) == m[CENTER as int],
        bottom_right(m) == m[CENTER as int],
{
    assert forall|i: int, j: int| 0 <= i < WINDOW && 0 <= j < WINDOW implies #[trigger] d(m, i, j)
        == 0 by {
        assert(same_color(m[i], m[CENTER as int]));
        assert(same_color(m[j], m[CENTER as int]));
        lemma_distance_same_color(m[i], m[j], m[i]);
    }
    reveal(contrast);
    lemma_rounded_near(0);
}

/// The window has all its cells, and every cell but the centre is zero.
pub open spec fn lone(m: Seq<u32>) -> bool {
    &&& m.len() == WINDOW
    &&& forall|i: int| 0 <= i < WINDOW && i != CENTER ==> #[trigger] m[i] == 0
}

/// Two cells at the distance `far` from the centre make less contrast than
/// one such cell on the axis, which counts fourfold, whatever two further
/// cells add to the latter.
pub proof fn lemma_corner_contrast(far: int, x: int, y: int)
    requires
        0 < far <= DISTANCE_BOUND,
        0 <= x <= DISTANCE_BOUND,
        0 <= y <= DISTANCE_BOUND,
    ensures
        sum(sum(sum(sum(far, far), 0), 0), product(0, 4)) < sum(
            sum(sum(sum(x, 0), y), 0),
            product(far, 4),
        ),
{
    lemma_rounded_near(0);
    let a1 = sum(far, far);
    lemma_rounded_near(far + far);
    assert(8 * a1 <= 17 * far && a1 >= 0);
    let a2 = sum(a1, 0);
    lemma_rounded_near(a1 + 0);
    assert(8 * a2 <= 18 * far && a2 >= 0);
    let a3 = sum(a2, 0);
    lemma_rounded_near(a2 + 0);
    assert(8 * a3 <= 19 * far && a3 >= 0);
    let a4 = sum(a3, 0);
    lemma_rounded_near(a3 + 0);
    assert(8 * a4 <= 20 * far);
    let c1 = product(far, 4);
    lemma_rounded_near(far * 4);
    assert(8 * c1 >= 31 * far);
    let b1 = sum(x, 0);
    lemma_rounded_near(x + 0);
    assert(0 <= b1 <= 2 * DISTANCE_BOUND);
    let b2 = sum(b1, y);
    lemma_rounded_near(b1 + y);
    assert(0 <= b2 <= 4 * DISTANCE_BOUND);
    let b3 = sum(b2, 0);
    lemma_rounded_near(b2 + 0);
    assert(0 <= b3 <= 8 * DISTANCE_BOUND);
    let c2 = sum(b3, c1);
    lemma_rounded_near(b3 + c1);
    assert(8 * c2 >= 30 * far);
}

/// The window's cells above and to the left of the centre are zero, as they
/// are around the first pixel of an image.
pub open spec fn cornered(m: Seq<u32>) -> bool {
    &&& m.len() == WINDOW
    &&& forall|i: int| 0 <= i < CENTER ==> #[trigger] m[i] == 0
    &&& m[13] == 0 && m[14] == 0
}

/// A centre that is not black, with nothing but zero cells above it and to
/// its left: the top-left rule finds an edge, and the top-left pixel of the
/// block is the even blend of the centre with black.
pub proof fn lemma_corner(m: Seq<u32>)
    requires
        cornered(m),
        !is_black(m[CENTER as int]),
    ensures
        top_left(m) == halfway(0, m[CENTER as int]) as u32,
{
    let v = m[CENTER as int];
    let far = distance(v, 0);
    lemma_distance_bound(v, 0);
    lemma_distance_positive(v, 0);
    lemma_distance_same_color(0, 0, 0);
    assert(m[14] == 0 && m[6] == 0 && m[4] == 0 && m[8] == 0 && m[1] == 0 && m[9] == 0 && m[5]
        == 0 && m[3] == 0 && m[0] == 0);
    let x = distance(0, m[15]);
    let y = distance(0, m[11]);
    lemma_distance_bound(0, m[15]);
    lemma_distance_bound(0, m[11]);
    if same_color(0, m[15]) {
        lemma_distance_same_color(0, m[15], 0);
    } else {
        lemma_distance_positive(0, m[15]);
    }
    if same_color(0, m[11]) {
        lemma_distance_same_color(0, m[11], 0);
    } else {
        lemma_distance_positive(0, m[11]);
    }
    reveal(contrast);
    lemma_corner_contrast(far, x, y);
}

/// A centre that stands alone among zero cells: where it is black too, the
/// block repeats it; where it is not, every rule finds an edge, and all four
/// pixels of the block are the even blend of the centre with black.
pub proof fn lemma_lone_center(m: Seq<u32>)
    requires
        lone(m),
    ensures
        top_left(m) == top_right(m) == bottom_left(m) == bottom_right(m),
        is_black(m[CENTER as int]) ==> top_left(m) == m[CENTER as int],
        !is_black(m[CENTER as int]) ==> top_left(m) == halfway(0, m[CENTER as int]) as u32,
{
    let v = m[CENTER as int];
    let far = distance(v, 0);
    lemma_distance_bound(v, 0);
    lemma_distance_same_color(0, 0, 0);
    assert forall|i: int, j: int|
        0 <= i < WINDOW && 0 <= j < WINDOW && i != CENTER && j != CENTER implies #[trigger] d(
        m,
        i,
        j,
    ) == 0 by {
        assert(m[i] == 0 && m[j] == 0);
    }
    assert forall|j: int| 0 <= j < WINDOW && j != CENTER implies #[trigger] d(m, CENTER as int, j)
        == far by {
        assert(m[j] == 0);
    }
    reveal(contrast);
    lemma_rounded_near(0);
    if is_black(v) {
        lemma_distance_same_color(v, 0, v);
    } else {
        lemma_distance_positive(v, 0);
        lemma_corner_contrast(far, 0, 0);
    }
}

fn cell_diff(m: &[u32; 21], i: usize, j: usize) -> (w: i64)
    requires
        i < WINDOW,
        j < WINDOW,
    ensures
        w == d(m@, i as int, j as int),
        0 <= w <= DISTANCE_BOUND,
{
    diff(m[i], m[j])
}

fn measure(
    m: &[u32; 21],
    a: (usize, usize),
    b: (usize, usize),
    c: (usize, usize),
    e: (usize, usize),
    axis: (usize, usize),
) -> (sum: i64)
    requires
        a.0 < WINDOW && a.1 < WINDOW,
        b.0 < WINDOW && b.1 < WINDOW,
        c.0 < WINDOW && c.1 < WINDOW,
        e.0 < WINDOW && e.1 < WINDOW,
        axis.0 < WINDOW && axis.1 < WINDOW,
    ensures
        sum == contrast(
            m@,
            (a.0 as int, a.1 as int),
            (b.0 as int, b.1 as int),
            (c.0 as int, c.1 as int),
            (e.0 as int, e.1 as int),
            (axis.0 as int, axis.1 as int),
        ),
{
    proof {
        reveal(contrast);
    }
    let first: i64 = plus(cell_diff(m, a.0, a.1), cell_diff(m, b.0, b.1));
    let second: i64 = plus(first, cell_diff(m, c.0, c.1));
    let third: i64 = plus(second, cell_diff(m, e.0, e.1));
    plus(third, times(cell_diff(m, axis.0, axis.1), 4))
}

fn decide(m: &[u32; 21], along: i64, across: i64, first: usize, second: usize) -> (p: u32)
    requires
        first < WINDOW,
        second < WINDOW,
    ensures
        p == resolve(m@, along as int, across as int, first as int, second as int),
{
    if along < across {
        let new_pixel: u32 = if cell_diff(m, CENTER, first) <= cell_diff(m, CENTER, second) {
            m[first]
        } else {
            m[second]
        };
        blend_half(new_pixel, m[CENTER])
    } else {
        m[CENTER]
    }
}

/// Evaluates the rule for the top-left pixel of the block.
pub fn top_left_rule(m: &[u32; 21]) -> (p: u32)
    ensures
        p == top_left(m@),
{
    let along: i64 = measure(m, (10, 14), (10, 6), (4, 8), (4, 1), (9, 5));
    let across: i64 = measure(m, (9, 15), (9, 3), (5, 11), (5, 0), (10, 4));
    decide(m, along, across, 9, 5)
}

/// Evaluates the rule for the top-right pixel of the block.
pub fn top_right_rule(m: &[u32; 21]) -> (p: u32)
    ensures
        p == top_right(m@),
{
    let along: i64 = measure(m, (10, 16), (10, 4), (6, 12), (6, 1), (5, 11));
    let across: i64 = measure(m, (11, 15), (11, 7), (9, 5), (5, 2), (10, 6));
    decide(m, along, across, 5, 11)
}

/// Evaluates the rule for the bottom-left pixel of the block.
pub fn bottom_left_rule(m: &[u32; 21]) -> (p: u32)
    ensures
        p == bottom_left(m@),
{
    let along: i64 = measure(m, (10, 4), (10, 16), (14, 8), (14, 19), (9, 15));
    let across: i64 = measure(m, (9, 5), (9, 13), (11, 15), (15, 18), (10, 14));
    decide(m, along, across, 9, 15)
}

/// Evaluates the rule for the bottom-right pixel of the block.
pub fn bottom_right_rule(m: &[u32; 21]) -> (p: u32)
    ensures
        p == bottom_right(m@),
{
    let along: i64 = measure(m, (10, 6), (10, 14), (16, 12), (16, 19), (11, 15));
    let across: i64 = measure(m, (9, 15), (15, 20), (15, 17), (5, 11), (10, 16));
    decide(m, along, across, 11, 15)
}

} // verus!
