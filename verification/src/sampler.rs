//! The neighbourhood sampler: the 21 source pixels around one coordinate.
//!
//! The window is a 5x5 square without its four corners, numbered row by row:
//!
//! ```text
//!        -2  -1   0  +1  +2   (x)
//!  -2        [ 0][ 1][ 2]
//!  -1    [ 3][ 4][ 5][ 6][ 7]
//!   0    [ 8][ 9][10][11][12]
//!  +1    [13][14][15][16][17]
//!  +2        [18][19][20]
//!  (y)
//! ```
//!
//! Cell 10 is the centre. A cell that falls outside the image is black.

use vstd::prelude::*;

verus! {

/// The number of cells in a window.
pub const WINDOW: usize = 21;

/// The index of a window's centre cell.
pub const CENTER: usize = 10;

/// The image has as many pixels as its width and height say.
pub open spec fn well_sized(image: Seq<u32>, width: int, height: int) -> bool {
    image.len() == width * height
}

/// The pixel at `(x, y)` of a row-major image, or zero where the coordinate
/// lies outside the image.
pub open spec fn pixel(image: Seq<u32>, width: int, height: int, x: int, y: int) -> u32 {
    if 0 <= x < width && 0 <= y < height {
        image[width * y + x]
    } else {
        0
    }
}

/// The row of window cell `i`, relative to the centre.
pub open spec fn offset_y(i: int) -> int {
    if i < 3 {
        -2
    } else if i < 8 {
        -1
    } else if i < 13 {
        0
    } else if i < 18 {
        1
    } else {
        2
    }
}

/// The column of window cell `i`, relative to the centre.
pub open spec fn offset_x(i: int) -> int {
    if i < 3 {
        i - 1
    } else if i < 8 {
        i - 5
    } else if i < 13 {
        i - 10
    } else if i < 18 {
        i - 15
    } else {
        i - 19
    }
}

/// The window centred at `(x, y)`.
pub open spec fn window(image: Seq<u32>, width: int, height: int, x: int, y: int) -> Seq<u32> {
    Seq::new(
        WINDOW as nat,
        |i: int| pixel(image, width, height, x + offset_x(i), y + offset_y(i)),
    )
}

/// A position inside the image is a valid index into it.
pub proof fn lemma_index_in_bounds(width: int, height: int, x: int, y: int)
    requires
        0 <= x < width,
        0 <= y < height,
    ensures
        0 <= width * y,
        0 <= width * y + x < width * height,
{
    assert(width * y + width <= width * height && 0 <= width * y) by (nonlinear_arith)
        requires
            0 <= y < height,
            0 < width,
    ;
}

/// Reads the pixel at `(x, y)`; a coordinate outside the image reads as zero.
pub fn pixel_at(image: &[u32], width: u32, height: u32, x: i64, y: i64) -> (p: u32)
    requires
        well_sized(image@, width as int, height as int),
    ensures
        p == pixel(image@, width as int, height as int, x as int, y as int),
{
    if x < 0 || x >= width as i64 || y < 0 || y >= height as i64 {
        0
    } else {
        proof {
            lemma_index_in_bounds(width as int, height as int, x as int, y as int);
        }
        let column: usize = x as usize;
        let row: usize = y as usize;
        assert((width as int) * (row as int) + (column as int) < image.len());
        image[width as usize * row + column]
    }
}

/// Gathers the window centred at `(x, y)`.
pub fn sample(image: &[u32], width: u32, height: u32, x: u32, y: u32) -> (m: [u32; 21])
    requires
        well_sized(image@, width as int, height as int),
    ensures
        m@ == window(image@, width as int, height as int, x as int, y as int),
{
    let x: i64 = x as i64;
    let y: i64 = y as i64;
    let m: [u32; 21] = [
        pixel_at(image, width, height, x - 1, y - 2),
        pixel_at(image, width, height, x, y - 2),
        pixel_at(image, width, height, x + 1, y - 2),
        pixel_at(image, width, height, x - 2, y - 1),
        pixel_at(image, width, height, x - 1, y - 1),
        pixel_at(image, width, height, x, y - 1),
        pixel_at(image, width, height, x + 1, y - 1),
        pixel_at(image, width, height, x + 2, y - 1),
        pixel_at(image, width, height, x - 2, y),
        pixel_at(image, width, height, x - 1, y),
        pixel_at(image, width, height, x, y),
        pixel_at(image, width, height, x + 1, y),
        pixel_at(image, width, height, x + 2, y),
        pixel_at(image, width, height, x - 2, y + 1),
        pixel_at(image, width, height, x - 1, y + 1),
        pixel_at(image, width, height, x, y + 1),
        pixel_at(image, width, height, x + 1, y + 1),
        pixel_at(image, width, height, x + 2, y + 1),
        pixel_at(image, width, height, x - 1, y + 2),
        pixel_at(image, width, height, x, y + 2),
        pixel_at(image, width, height, x + 1, y + 2),
    ];
    assert(m@ =~= window(image@, width as int, height as int, x as int, y as int));
    m
}

} // verus!
