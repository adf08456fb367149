//! Every strategy must produce byte-identical output to the channel-outer
//! reference, over box kernels of all supported sizes and a Sobel kernel.

use rgbconv::conv::ConvProcessor;
use rgbconv::image::RgbImage;

fn test_image(h: usize, w: usize) -> RgbImage {
    let mut content: Vec<u8> = Vec::new();
    for y in 0..h {
        for x in 0..w {
            for c in 0..3 {
                content.push((((y * 31 + x * 7 + c * 13) * 97 + y + 3 * x) % 256) as u8);
            }
        }
    }
    RgbImage::from_raw(content, h, w)
}

fn box_processor(k: usize) -> ConvProcessor {
    ConvProcessor::new(vec![1; k * k], k, true).unwrap()
}

fn sobel_processor() -> ConvProcessor {
    ConvProcessor::new(vec![-1, 0, 1, -2, 0, 2, -1, 0, 1], 3, false).unwrap()
}

fn check_against_reference(apply: impl Fn(&ConvProcessor, &RgbImage) -> RgbImage) {
    let img = test_image(25, 40);
    for k in [3, 5, 7, 9, 11, 13, 15, 17, 19] {
        let layer = box_processor(k);
        let expected = layer.naive1(&img);
        let got = apply(&layer, &img);
        assert!(got == expected, "box {}x{} output differs from reference", k, k);
    }
    let layer = sobel_processor();
    let expected = layer.naive1(&img);
    let got = apply(&layer, &img);
    assert!(got == expected, "sobel output differs from reference");

    // An image with no interior at all must also agree (all zeros).
    let tiny = test_image(2, 2);
    let layer = box_processor(3);
    let expected = layer.naive1(&tiny);
    let got = apply(&layer, &tiny);
    assert!(got == expected, "tiny-image output differs from reference");
}

#[test]
fn naive2() {
    check_against_reference(|layer, img| layer.naive2(img));
}

#[test]
fn simd1() {
    check_against_reference(|layer, img| layer.simd1(img));
}

#[test]
fn simd2() {
    check_against_reference(|layer, img| layer.simd2(img));
}

#[test]
fn simd3() {
    check_against_reference(|layer, img| layer.simd3(img));
}
