use mandel::{first_escape, plan_bands, render, shade, ITERATION_LIMIT};
use num::Complex;

fn escapes(c: Complex<f64>, limit: u32) -> Option<u32> {
    let step = |z: Complex<f64>| {
        let next = z * z + c;
        (next, next.norm_sqr() > 4.0)
    };
    first_escape(Complex { re: 0.0, im: 0.0 }, limit, &step)
}

#[test]
fn origin_never_escapes() {
    assert_eq!(escapes(Complex { re: 0.0, im: 0.0 }, 1), None);
    assert_eq!(escapes(Complex { re: 0.0, im: 0.0 }, 255), None);
}

#[test]
fn far_point_escapes_on_first_check() {
    assert_eq!(escapes(Complex { re: 3.0, im: 0.0 }, 255), Some(0));
    assert_eq!(escapes(Complex { re: -2.0, im: 1.5 }, 255), Some(0));
}

#[test]
fn escape_index_is_zero_based() {
    // z: 1, 2, 5; |2|^2 == 4 is not past the radius.
    assert_eq!(escapes(Complex { re: 1.0, im: 0.0 }, 255), Some(2));
    assert_eq!(escapes(Complex { re: 1.0, im: 0.0 }, 2), None);
    assert_eq!(escapes(Complex { re: 1.0, im: 0.0 }, 0), None);
}

#[test]
fn shade_ramp() {
    assert_eq!(shade(None), 0);
    assert_eq!(shade(Some(0)), 255);
    assert_eq!(shade(Some(254)), 1);
    assert_eq!(shade(Some(10)), 245);
}

#[test]
fn bands_partition_the_buffer() {
    let (width, height) = (4usize, 3usize);
    let bands = plan_bands((width, height));
    assert_eq!(bands.len(), height);
    let mut hits = vec![0u32; width * height];
    for (i, b) in bands.iter().enumerate() {
        assert_eq!(b.top, i);
        assert_eq!(b.bounds, (width, 1));
        assert_eq!(b.upper_left_pixel, (0, i));
        assert_eq!(b.lower_right_pixel, (width, i + 1));
        for p in b.start..b.end {
            hits[p] += 1;
        }
    }
    assert!(hits.iter().all(|&h| h == 1));
}

#[test]
fn no_bands_for_empty_height() {
    assert!(plan_bands((5, 0)).is_empty());
}

#[test]
fn render_is_row_major() {
    let mut pixels = vec![9u8; 6];
    let at = |c: usize, r: usize, limit: u32| {
        assert_eq!(limit, ITERATION_LIMIT);
        if c == 2 && r == 1 { None } else { Some((r * 3 + c) as u32) }
    };
    render(&mut pixels, (3, 2), &at);
    assert_eq!(pixels, vec![255, 254, 253, 252, 251, 0]);
}

#[test]
fn render_twice_is_identical() {
    let at = |c: usize, r: usize, limit: u32| {
        let x = -2.0 + c as f64 * 3.0 / 16.0;
        let y = 1.0 - r as f64 * 2.0 / 8.0;
        escapes(Complex { re: x, im: y }, limit)
    };
    let mut first = vec![0u8; 16 * 8];
    let mut second = vec![0u8; 16 * 8];
    render(&mut first, (16, 8), &at);
    // the same pixels, rendered one band at a time from the bottom up
    for band in plan_bands((16, 8)).iter().rev() {
        let top = band.top;
        let row = |c: usize, _r: usize, limit: u32| at(c, top, limit);
        render(&mut second[band.start..band.end], band.bounds, &row);
    }
    assert_eq!(first, second);
}

#[test]
fn one_pixel_image_is_its_upper_left_point() {
    let bands = plan_bands((1, 1));
    assert_eq!(bands.len(), 1);
    assert_eq!((bands[0].start, bands[0].end), (0, 1));
    let mut pixels = vec![7u8; 1];
    let upper_left = Complex { re: 1.0, im: 0.0 };
    render(&mut pixels, (1, 1), &|_c: usize, _r: usize, limit: u32| escapes(upper_left, limit));
    assert_eq!(pixels[0], shade(escapes(upper_left, 255)));
    assert_eq!(pixels[0], 253);
}
