use bench_kernels::pixmap::ends_line;
use bench_kernels::pixmap::pixel_colour;

#[test]
fn points_that_never_escape_are_black() {
    assert_eq!(pixel_colour(1000, 1000), (0, 0, 0));
    assert_eq!(pixel_colour(0, 0), (0, 0, 0));
}

#[test]
fn escape_times_become_shades_modulo_256() {
    assert_eq!(pixel_colour(0, 1000), (0, 0, 255));
    assert_eq!(pixel_colour(5, 1000), (5, 5, 255));
    assert_eq!(pixel_colour(255, 1000), (255, 255, 255));
    assert_eq!(pixel_colour(256, 1000), (0, 0, 255));
    assert_eq!(pixel_colour(999, 1000), (231, 231, 255));
    assert_eq!(pixel_colour(1001, 1000), (233, 233, 255));
}

#[test]
fn lines_break_after_every_sixteenth_pixel() {
    assert!(ends_line(0));
    assert!(!ends_line(1));
    assert!(!ends_line(15));
    assert!(ends_line(16));
    assert!(ends_line(15_999_984));
    assert!(!ends_line(15_999_999));
}
