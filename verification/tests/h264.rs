use fracturize::h264::{
    avc_decoder_config, quantizer, settings, strip_start_code, FrameKind, H264Encoder, Track, Yuv420,
};
use openh264::encoder::{
    Encoder, EncoderConfig, FrameRate, IntraFramePeriod, Level, Profile, QpRange, RateControlMode,
    VuiConfig,
};
use openh264::OpenH264API;

#[test]
fn start_codes_come_off_either_length() {
    assert_eq!(strip_start_code(&[0, 0, 0, 1, 0x67, 0x42]), &[0x67, 0x42]);
    assert_eq!(strip_start_code(&[0, 0, 1, 0x68]), &[0x68]);
    // Already bare: left alone rather than truncated
    assert_eq!(strip_start_code(&[0x65, 0x88]), &[0x65, 0x88]);
}

#[test]
fn avcc_describes_the_stream_it_was_given() {
    let sps = [0x67, 0x64, 0x00, 0x33, 0xAC];
    let pps = [0x68, 0xEE, 0x3C];
    let c = avc_decoder_config(&sps, &pps).unwrap();
    assert_eq!(c[0], 1, "configurationVersion");
    // profile/compat/level lifted straight out of the SPS
    assert_eq!(&c[1..4], &[0x64, 0x00, 0x33]);
    assert_eq!(c[4], 0xFF, "4-byte NAL lengths");
    assert_eq!(u16::from_be_bytes([c[6], c[7]]) as usize, sps.len());
    assert_eq!(&c[8..8 + sps.len()], &sps);
    let after = 8 + sps.len();
    assert_eq!(c[after], 1, "one PPS");
    assert_eq!(u16::from_be_bytes([c[after + 1], c[after + 2]]) as usize, pps.len());
    assert_eq!(&c[after + 3..], &pps);
}

#[test]
fn a_truncated_sps_is_refused_rather_than_indexed_into() {
    assert!(avc_decoder_config(&[0x67], &[0x68]).is_err());
}

fn encoder(fps: f32, quality: u8) -> Encoder {
    let qp = quantizer(quality);
    let config = EncoderConfig::new()
        .rate_control_mode(RateControlMode::Bufferbased)
        .qp(QpRange::new(qp, qp))
        .skip_frames(false)
        .max_frame_rate(FrameRate::from_hz(fps))
        .profile(Profile::High)
        .level(Level::Level_5_1)
        .intra_frame_period(IntraFramePeriod::from_num_frames(300))
        .vui(VuiConfig::bt709())
        .num_threads(4);
    Encoder::with_api_config(OpenH264API::from_source(), config).unwrap()
}

/// BT.709, limited range, with the chroma of each 2x2 block averaged.
fn yuv420(rgba: &[u8], width: usize, height: usize) -> Yuv420 {
    let px = |x: usize, y: usize| {
        let i = (y * width + x) * 4;
        (rgba[i] as f32, rgba[i + 1] as f32, rgba[i + 2] as f32)
    };
    let mut luma = Vec::new();
    for y in 0..height {
        for x in 0..width {
            let (r, g, b) = px(x, y);
            let v = 16.0 + (0.2126 * r + 0.7152 * g + 0.0722 * b) * 219.0 / 255.0;
            luma.push(v.clamp(0.0, 255.0) as u8);
        }
    }
    let (mut u, mut v) = (Vec::new(), Vec::new());
    for y in 0..height / 2 {
        for x in 0..width / 2 {
            let (mut r, mut g, mut b) = (0.0, 0.0, 0.0);
            for (dx, dy) in [(0, 0), (1, 0), (0, 1), (1, 1)] {
                let p = px(2 * x + dx, 2 * y + dy);
                r += p.0 / 4.0;
                g += p.1 / 4.0;
                b += p.2 / 4.0;
            }
            let luma = 0.2126 * r + 0.7152 * g + 0.0722 * b;
            u.push((128.0 + (b - luma) / 1.8556 * 224.0 / 255.0).clamp(0.0, 255.0) as u8);
            v.push((128.0 + (r - luma) / 1.5748 * 224.0 / 255.0).clamp(0.0, 255.0) as u8);
        }
    }
    Yuv420 { width, height, y: luma, u, v }
}

#[test]
fn a_finer_quantizer_takes_more_bytes() {
    // Noise, not a gradient: a gradient compresses to almost nothing at
    // every setting and the differences vanish into the noise floor.
    let (w, h) = (128u32, 96u32);
    let encoded = |quality: u8| {
        let mut enc = H264Encoder::new(encoder(24.0, quality), w as usize, h as usize);
        let mut seed = 12345u32;
        for _ in 0..15 {
            let mut rgba = vec![0u8; (w * h * 4) as usize];
            for px in rgba.chunks_exact_mut(4) {
                seed = seed.wrapping_mul(1664525).wrapping_add(1013904223);
                px[0] = (seed >> 24) as u8;
                px[1] = (seed >> 16) as u8;
                px[2] = (seed >> 8) as u8;
                px[3] = 255;
            }
            enc.push_frame(&yuv420(&rgba, w as usize, h as usize)).unwrap();
        }
        assert_eq!(enc.track.samples.len(), 15);
        assert!(enc.track.samples[0].sync, "a stream opens on a keyframe");
        let (config, samples) = enc.finish().expect("with its parameter sets");
        assert_eq!(config[0], 1);
        samples.iter().map(|s| s.data.len()).sum::<usize>()
    };
    let (low, mid, high) = (encoded(20), encoded(50), encoded(60));
    assert!(low < mid, "q20 ({low}) should be smaller than q50 ({mid})");
    assert!(mid < high, "q50 ({mid}) should be smaller than q60 ({high})");
}

#[test]
fn the_quantizer_spans_its_range() {
    assert_eq!(quantizer(0), 51);
    assert_eq!(quantizer(50), 26);
    assert_eq!(quantizer(100), 1);
    assert_eq!(quantizer(255), 1);
}

#[test]
fn parameter_sets_are_kept_and_slices_are_framed() {
    let mut t = Track::new();
    assert_eq!(t.config().unwrap_err(), "no frames pushed");
    let nals = vec![
        vec![0, 0, 0, 1, 0x67, 0x64, 0x00, 0x33],
        vec![0, 0, 1, 0x68, 0xEE],
        vec![0, 0, 1, 0x09, 0x10],
        vec![0, 0, 1, 0x65, 1, 2, 3],
    ];
    t.push_nals(&nals, FrameKind::Idr).unwrap();
    assert_eq!(t.samples[0].data, vec![0, 0, 0, 4, 0x65, 1, 2, 3]);
    assert!(t.samples[0].sync);
    assert_eq!(t.sps, Some(vec![0x67, 0x64, 0x00, 0x33]));
    assert_eq!(t.pps, Some(vec![0x68, 0xEE]));
    t.push_nals(&vec![vec![0, 0, 1, 0x41, 9]], FrameKind::P).unwrap();
    assert!(!t.samples[1].sync);
    let e = t.push_nals(&vec![vec![0, 0, 1, 0x67, 9]], FrameKind::Skip).unwrap_err();
    assert_eq!(e, "openh264 produced no slice data for frame 2 (frame type Skip)");
}

#[test]
fn a_file_needs_frames_and_both_parameter_sets() {
    let none = H264Encoder::new(encoder(24.0, 50), 16, 16);
    assert_eq!(none.finish().err().unwrap(), "no frames pushed");

    let mut bare = H264Encoder::new(encoder(24.0, 50), 16, 16);
    bare.track.push_nals(&vec![vec![0, 0, 1, 0x41, 9]], FrameKind::P).unwrap();
    assert_eq!(
        bare.finish().err().unwrap(),
        "openh264 never emitted SPS/PPS; the stream would be undecodable"
    );

    let mut short = H264Encoder::new(encoder(24.0, 50), 16, 16);
    let nals = vec![vec![0x67, 1], vec![0x68, 2], vec![0x65, 3]];
    short.track.push_nals(&nals, FrameKind::Idr).unwrap();
    assert_eq!(short.finish().err().unwrap(), "SPS too short to describe a stream (2 bytes)");
}

/// What the encoder is handed is the planes in order, the size, and a row's
/// length in each.
#[test]
fn a_picture_is_handed_on_plane_by_plane() {
    let p = Yuv420 { width: 4, height: 2, y: (1..9).collect(), u: vec![20, 21], v: vec![30, 31] };
    let ((y, u, v), size, strides) = p.slices();
    assert_eq!(y, &[1, 2, 3, 4, 5, 6, 7, 8]);
    assert_eq!(u, &[20, 21]);
    assert_eq!(v, &[30, 31]);
    assert_eq!(size, (4, 2));
    assert_eq!(strides, (4, 2, 2));
}

#[test]
fn an_encoder_is_set_up_by_rate_quality_and_threads() {
    let s = settings(30, 100, 8);
    assert_eq!((s.min_qp, s.max_qp), (quantizer(100), quantizer(100)));
    assert!(!s.skip_frames);
    assert_eq!((s.frames_per_second, s.intra_period, s.threads), (30, 300, 8));
    assert_eq!(settings(60, 0, 0x1_0003).threads, 3);
}
