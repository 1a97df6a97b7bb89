use mandelbrot::partition::partition_rows;
use mandelbrot::raster::pixel_index;
use mandelbrot::raster::shade;
use mandelbrot::raster::ImageBounds;

// The floating-point kernels live outside the library; these test-local
// copies of the renderer's mapper and evaluator drive the library's
// partitioning, indexing and shading the way the program does.

fn pixel_to_point(
    bounds: ImageBounds,
    pixel: (usize, usize),
    upper_left: (f64, f64),
    lower_right: (f64, f64),
) -> (f64, f64) {
    let (plane_width, plane_height) = (lower_right.0 - upper_left.0, upper_left.1 - lower_right.1);
    (
        upper_left.0 + pixel.0 as f64 * plane_width / bounds.width as f64,
        upper_left.1 - pixel.1 as f64 * plane_height / bounds.height as f64,
    )
}

fn escape_time(c: (f64, f64), limit: usize) -> Option<usize> {
    let (mut re, mut im) = (0.0f64, 0.0f64);
    for i in 0..limit {
        if re * re + im * im > 4.0 {
            return Some(i);
        }
        let next_re = re * re - im * im + c.0;
        let next_im = 2.0 * re * im + c.1;
        re = next_re;
        im = next_im;
    }
    None
}

fn render_sequential(
    bounds: ImageBounds,
    upper_left: (f64, f64),
    lower_right: (f64, f64),
) -> Vec<u8> {
    let mut pixels = vec![0u8; bounds.pixel_count()];
    for row in 0..bounds.height {
        for column in 0..bounds.width {
            let point = pixel_to_point(bounds, (column, row), upper_left, lower_right);
            pixels[pixel_index(bounds, column, row)] = shade(escape_time(point, 255));
        }
    }
    pixels
}

fn render_banded(
    bounds: ImageBounds,
    upper_left: (f64, f64),
    lower_right: (f64, f64),
    workers: usize,
) -> Vec<u8> {
    let mut pixels = vec![0u8; bounds.pixel_count()];
    let bands = partition_rows(bounds.height, workers);
    for band in &bands {
        for local_row in 0..band.rows {
            let row = band.start_row + local_row;
            for column in 0..bounds.width {
                let point = pixel_to_point(bounds, (column, row), upper_left, lower_right);
                pixels[pixel_index(bounds, column, row)] = shade(escape_time(point, 255));
            }
        }
    }
    pixels
}

#[test]
fn banded_rendering_matches_sequential_rendering() {
    let bounds = ImageBounds { width: 2, height: 2 };
    let upper_left = (-1.0, 1.0);
    let lower_right = (1.0, -1.0);
    let sequential = render_sequential(bounds, upper_left, lower_right);
    for workers in 1..=4 {
        let banded = render_banded(bounds, upper_left, lower_right, workers);
        assert_eq!(banded, sequential);
    }
}

#[test]
fn banded_rendering_matches_on_a_larger_grid() {
    let bounds = ImageBounds { width: 20, height: 15 };
    let upper_left = (-1.20, 0.35);
    let lower_right = (-1.0, 0.20);
    let sequential = render_sequential(bounds, upper_left, lower_right);
    for workers in [1usize, 2, 4, 8, 16, 32] {
        let banded = render_banded(bounds, upper_left, lower_right, workers);
        assert_eq!(banded, sequential);
    }
}

#[test]
fn mapper_hits_corners_and_interior_points() {
    let bounds = ImageBounds { width: 100, height: 200 };
    let upper_left = (-1.0, 1.0);
    let lower_right = (1.0, -1.0);
    assert_eq!(
        pixel_to_point(bounds, (25, 175), upper_left, lower_right),
        (-0.5, -0.75)
    );
    assert_eq!(
        pixel_to_point(bounds, (0, 0), upper_left, lower_right),
        upper_left
    );
    assert_eq!(
        pixel_to_point(bounds, (100, 200), upper_left, lower_right),
        lower_right
    );
}

#[test]
fn origin_never_escapes_and_far_points_escape_at_once() {
    assert_eq!(escape_time((0.0, 0.0), 255), None);
    assert_eq!(shade(escape_time((0.0, 0.0), 255)), 0);
    assert_eq!(escape_time((10.0, 10.0), 255), Some(1));
}
