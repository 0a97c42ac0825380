//! The colouring of the Mandelbrot picture: how an escape time becomes a
//! pixel of the plain-text pixmap, and where its lines break.

use vstd::prelude::*;

verus! {

/// The colour of a point: black where the orbit never escaped, otherwise
/// a shade of blue that turns lighter with the escape time, modulo 256.
pub open spec fn colour_of(iterations: u32, max_iter: u32) -> (u8, u8, u8) {
    if iterations == max_iter {
        (0u8, 0u8, 0u8)
    } else {
        ((iterations % 256) as u8, (iterations % 256) as u8, 255u8)
    }
}

/// The red, green and blue of a pixel whose orbit took `iterations` steps
/// out of at most `max_iter`.
pub fn pixel_colour(iterations: u32, max_iter: u32) -> (rgb: (u8, u8, u8))
    ensures
        rgb == colour_of(iterations, max_iter),
{
    if iterations == max_iter {
        (0, 0, 0)
    } else {
        let shade = (iterations % 256) as u8;
        (shade, shade, 255)
    }
}

/// Whether the text breaks the line after pixel number `index`: after
/// every sixteenth pixel, the first one included.
pub fn ends_line(index: usize) -> (breaks: bool)
    ensures
        breaks == (index % 16 == 0),
{
    index % 16 == 0
}

} // verus!
