use fracturize::stats::{measure, print_image_stats, BINS, LUMINANCE_UNIT};

fn image(pixels: &[[u8; 4]]) -> Vec<u8> {
    pixels.iter().flatten().copied().collect()
}

#[test]
fn pixels_add_up() {
    let s = measure(&image(&[
        [255, 255, 255, 255],
        [0, 0, 0, 255],
        [255, 0, 0, 255],
        [0, 0, 255, 0],
        [10, 20, 10, 255],
    ]));
    assert_eq!(s.clipped, 1);
    assert_eq!(s.empty, 2);
    assert_eq!(s.colored, 2);
    assert_eq!(s.max_luminance, LUMINANCE_UNIT);
    assert_eq!(
        s.luminance,
        LUMINANCE_UNIT + 2126 * 255 + 722 * 255 + 2126 * 10 + 7152 * 20 + 722 * 10
    );
    assert_eq!(s.saturation, 2_000_000_000);
    assert_eq!(s.bins.len(), BINS);
    assert_eq!(s.bins[0], 1);
    assert_eq!(s.bins[10], 1);
}

#[test]
fn hues_wrap_below_red() {
    let s = measure(&image(&[[255, 0, 10, 255], [0, 255, 0, 255], [255, 255, 0, 255]]));
    assert_eq!((s.bins[15], s.bins[5], s.bins[2]), (1, 1, 1));
}

#[test]
fn a_grey_picture_has_no_colour() {
    let pixels = image(&[[100, 100, 100, 255], [0, 0, 0, 255]]);
    assert_eq!(
        print_image_stats("grey.png", 2, 1, &pixels).unwrap(),
        "stats    grey.png\n         2x1 (0.0M pixels)\n\
         \nlumin    mean 0.196   max 0.392\n         clipped   0.0%   empty  50.0%\n\
         \ncolor    no saturated pixels (grayscale or empty)\n"
    );
}

#[test]
fn one_hue_is_a_monochrome_trap() {
    let pixels = image(&[[255, 0, 0, 255], [255, 255, 255, 255]]);
    assert_eq!(
        print_image_stats("red.png", 1, 2, &pixels).unwrap(),
        "stats    red.png\n         1x2 (0.0M pixels)\n\
         \nlumin    mean 0.606   max 1.000\n         clipped  50.0%   empty   0.0%\n         \
         note: >5% clipped \u{2014} consider lowering exposure\n\
         \ncolor    mean saturation 1.00   colored pixels  50.0%\n         \
         note: color concentrated in 1 bin \u{2014} may be monochrome trap\n         \
         hue histogram: \u{2588}\u{2581}\u{2581}\u{2581}\u{2581}\u{2581}\u{2581}\u{2581}\
         \u{2581}\u{2581}\u{2581}\u{2581}\u{2581}\u{2581}\u{2581}\u{2581}\n                        \
         R Y  G  C B  M\n"
    );
}

#[test]
fn a_picture_without_pixels_is_refused() {
    assert_eq!(
        print_image_stats("none.png", 0, 7, &Vec::new()).unwrap_err(),
        "Image has zero pixels"
    );
}

/// The hue bin of a pixel in single precision.
fn single_bin(r: u8, g: u8, b: u8) -> Option<usize> {
    let (rf, gf, bf) = (r as f32 / 255.0, g as f32 / 255.0, b as f32 / 255.0);
    let most = rf.max(gf).max(bf);
    let delta = most - rf.min(gf).min(bf);
    if delta <= 0.05 {
        return None;
    }
    let hue = if most == rf {
        60.0 * (((gf - bf) / delta) % 6.0)
    } else if most == gf {
        60.0 * (((bf - rf) / delta) + 2.0)
    } else {
        60.0 * (((rf - gf) / delta) + 4.0)
    };
    let hue = if hue < 0.0 { hue + 360.0 } else { hue };
    Some(((hue / 360.0 * 16.0) as usize).min(15))
}

#[test]
fn hues_are_binned_in_single_precision() {
    assert_eq!(measure(&image(&[[30, 15, 6, 255]])).bins[0], 1);
    for r in (0..=255u8).step_by(3) {
        let (mut pixels, mut bins) = (Vec::new(), vec![0u64; BINS]);
        for g in (0..=255u8).step_by(3) {
            for b in (0..=255u8).step_by(3) {
                pixels.push([r, g, b, 255]);
                if let Some(i) = single_bin(r, g, b) {
                    bins[i] += 1;
                }
            }
        }
        assert_eq!(measure(&image(&pixels)).bins.to_vec(), bins, "red {r}");
    }
}
