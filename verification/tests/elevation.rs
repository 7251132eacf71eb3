use lodtree::elevation::{height_q8, sample_height_q8};

#[test]
fn height_decoding() {
    // the 24-bit sample is biased by 32768 meters, and the fixed
    // 130-meter calibration offset comes off; heights are in 1/256 m
    assert_eq!(height_q8(128, 130, 0), 0);
    assert_eq!(height_q8(128, 0, 0), -130 * 256);
    assert_eq!(height_q8(128, 131, 0), 256);
    assert_eq!(height_q8(128, 130, 128), 128);
    assert_eq!(height_q8(0, 0, 0), -8388608 - 33280);
}

#[test]
fn sampling_downsamples_and_clamps_to_the_border() {
    let mut pixels = vec![0u8; 3 * 512 * 512];
    let set = |px: &mut Vec<u8>, x: usize, y: usize, rgb: [u8; 3]| {
        let base = 3 * (y * 512 + x);
        px[base] = rgb[0];
        px[base + 1] = rgb[1];
        px[base + 2] = rgb[2];
    };
    set(&mut pixels, 80, 160, [128, 140, 0]);
    set(&mut pixels, 511, 511, [128, 150, 0]);
    set(&mut pixels, 0, 0, [128, 160, 0]);

    // vertex (10, 20) samples pixel (80, 160): eight pixels per vertex
    assert_eq!(sample_height_q8(&pixels, 10, 20), (140 - 130) * 256);
    // beyond the edge the border pixel is used
    assert_eq!(sample_height_q8(&pixels, 64, 64), (150 - 130) * 256);
    assert_eq!(sample_height_q8(&pixels, 1000, 1000), (150 - 130) * 256);
    assert_eq!(sample_height_q8(&pixels, -5, -5), (160 - 130) * 256);
}
