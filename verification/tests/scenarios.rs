//! End-to-end scenarios: border handling, normalization, saturation, and the
//! minimal computable image.

use rgbconv::conv::ConvProcessor;
use rgbconv::image::RgbImage;

fn uniform_image(h: usize, w: usize, rgb: [u8; 3]) -> RgbImage {
    let mut content: Vec<u8> = Vec::new();
    for _ in 0..h * w {
        content.extend_from_slice(&rgb);
    }
    RgbImage::from_raw(content, h, w)
}

fn all_strategies(layer: &ConvProcessor, img: &RgbImage) -> Vec<RgbImage> {
    vec![
        layer.naive1(img),
        layer.naive2(img),
        layer.simd1(img),
        layer.simd2(img),
        layer.simd3(img),
    ]
}

#[test]
fn box_filter_keeps_uniform_interior() {
    let img = uniform_image(10, 10, [200, 100, 50]);
    let layer = ConvProcessor::new(vec![1; 9], 3, true).unwrap();
    for out in all_strategies(&layer, &img) {
        assert_eq!(out.height, 10);
        assert_eq!(out.width, 10);
        for y in 0..10 {
            for x in 0..10 {
                let expected: [u8; 3] = if y >= 1 && y < 9 && x >= 1 && x < 9 {
                    [200, 100, 50]
                } else {
                    [0, 0, 0]
                };
                for c in 0..3 {
                    assert_eq!(out.pixel(y, x, c), expected[c]);
                }
            }
        }
    }
}

#[test]
fn sobel_on_flat_image_is_all_zero() {
    let img = uniform_image(12, 12, [90, 180, 45]);
    let layer = ConvProcessor::new(vec![-1, 0, 1, -2, 0, 2, -1, 0, 1], 3, false).unwrap();
    for out in all_strategies(&layer, &img) {
        assert!(out.content().iter().all(|&b| b == 0));
    }
    // A larger zero-sum gradient kernel behaves the same way.
    let mut weights: Vec<i32> = vec![0; 25];
    for row in 0..5 {
        weights[row * 5] = -2;
        weights[row * 5 + 1] = -1;
        weights[row * 5 + 3] = 1;
        weights[row * 5 + 4] = 2;
    }
    let layer5 = ConvProcessor::new(weights, 5, false).unwrap();
    for out in all_strategies(&layer5, &img) {
        assert!(out.content().iter().all(|&b| b == 0));
    }
}

#[test]
fn minimal_image_has_exactly_one_computed_pixel() {
    // 5x5 image with a 5x5 kernel: the only interior pixel is (2, 2).
    let mut content: Vec<u8> = Vec::new();
    for y in 0..5u8 {
        for x in 0..5u8 {
            content.push(y * 5 + x);
            content.push(100 + y * 5 + x);
            content.push(7);
        }
    }
    let img = RgbImage::from_raw(content, 5, 5);
    let layer = ConvProcessor::new(vec![1; 25], 5, true).unwrap();
    for out in all_strategies(&layer, &img) {
        for y in 0..5 {
            for x in 0..5 {
                // Channel sums are 300, 2800 and 175; divided by 25 they give
                // 12, 112 and 7.
                let expected: [u8; 3] = if y == 2 && x == 2 {
                    [12, 112, 7]
                } else {
                    [0, 0, 0]
                };
                for c in 0..3 {
                    assert_eq!(out.pixel(y, x, c), expected[c]);
                }
            }
        }
    }
}

#[test]
fn values_above_range_saturate_to_255() {
    let img = uniform_image(8, 8, [200, 3, 1]);
    // Every accumulator is 9 * 100 * the channel value: 180000, 2700 and 900
    // all exceed 255 and must saturate.
    let layer = ConvProcessor::new(vec![100; 9], 3, false).unwrap();
    for out in all_strategies(&layer, &img) {
        for y in 1..7 {
            for x in 1..7 {
                for c in 0..3 {
                    assert_eq!(out.pixel(y, x, c), 255);
                }
            }
        }
        assert_eq!(out.pixel(0, 0, 0), 0);
    }
}

#[test]
fn values_below_range_saturate_to_0() {
    let img = uniform_image(8, 8, [200, 100, 50]);
    let mut weights: Vec<i32> = vec![0; 9];
    weights[4] = -1;
    let layer = ConvProcessor::new(weights, 3, false).unwrap();
    for out in all_strategies(&layer, &img) {
        assert!(out.content().iter().all(|&b| b == 0));
    }
}

#[test]
fn normalization_truncates_toward_zero() {
    // One bright sample among zeros: 10 / 9 truncates to 1.
    let mut content: Vec<u8> = vec![0; 27];
    content[0] = 10;
    let img = RgbImage::from_raw(content, 3, 3);
    let layer = ConvProcessor::new(vec![1; 9], 3, true).unwrap();
    for out in all_strategies(&layer, &img) {
        assert_eq!(out.pixel(1, 1, 0), 1);
        assert_eq!(out.pixel(1, 1, 1), 0);
        assert_eq!(out.pixel(1, 1, 2), 0);
    }
}

#[test]
fn scaling_averaging_weights_leaves_output_unchanged() {
    let mut content: Vec<u8> = Vec::new();
    for t in 0..14 * 11 * 3 {
        content.push(((t * 37 + 11) % 256) as u8);
    }
    let img = RgbImage::from_raw(content, 14, 11);
    let ones = ConvProcessor::new(vec![1; 9], 3, true).unwrap();
    let sevens = ConvProcessor::new(vec![7; 9], 3, true).unwrap();
    let negs = ConvProcessor::new(vec![-1; 9], 3, true).unwrap();
    let base = ones.naive1(&img);
    assert!(sevens.naive1(&img) == base);
    assert!(negs.naive1(&img) == base);
    assert!(sevens.simd2(&img) == base);
    assert!(negs.simd3(&img) == base);
}
