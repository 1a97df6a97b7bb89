use mandelbrot::raster::pixel_index;
use mandelbrot::raster::shade;
use mandelbrot::raster::ImageBounds;

#[test]
fn pixel_index_is_row_major() {
    let bounds = ImageBounds { width: 100, height: 200 };
    assert_eq!(pixel_index(bounds, 0, 0), 0);
    assert_eq!(pixel_index(bounds, 25, 175), 17525);
    assert_eq!(pixel_index(bounds, 99, 0), 99);
    assert_eq!(pixel_index(bounds, 0, 1), 100);
    assert_eq!(pixel_index(bounds, 99, 199), 19999);
}

#[test]
fn pixel_count_is_width_times_height() {
    let bounds = ImageBounds { width: 1000, height: 750 };
    assert_eq!(bounds.pixel_count(), 750000);
}

#[test]
fn shade_of_a_set_member_is_black() {
    assert_eq!(shade(None), 0);
}

#[test]
fn shade_darkens_points_that_escape_sooner() {
    assert_eq!(shade(Some(0)), 255);
    assert_eq!(shade(Some(1)), 254);
    assert_eq!(shade(Some(100)), 155);
    assert_eq!(shade(Some(254)), 1);
}
