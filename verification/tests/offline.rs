use fracturize::accumulate::{check_accumulation, laps_for, Accumulation};
use fracturize::animate::{
    even_size, frame_count, frame_time, frames_stopped, on_stop, start_line, threads_line,
    timing_line, Carried, StopEffect,
};
use fracturize::grading::{regraded, regraded_sweep, retonemap, Grade, GradeAxis, GradeSweep, Overrides, Tonemap};
use fracturize::half::f16_to_f32;
use fracturize::image_file::{encode_err, sheet_png};
use fracturize::offline::{
    drains_after, fill_frames, fill_stopped, grade_save, print_timing, reject_grade_out, reject_spp,
    sheet_summary, sheet_timing, still_summary, tile_line, tiles_stopped, GradeSave, Outcome, Run, Sampling,
};
use fracturize::sheet::{
    big_endian, eight_bit_tile, float_texels, half_texels, image_data, narrow, narrowed,
    padded_bytes_per_row, put_tile, widen, BitDepth, SheetShape,
};
use fracturize::tiles::{
    base_label, build_tiles, cell, grid_axis, grid_shape, label_tile, move_label, orbit_label,
    GridMode, TileView,
};
use fracturize::variants::{
    is_stale_variant, variant_caption, variant_line, variant_path, variant_seed,
};

const UNIT: i64 = 1_000_000_000;

/// Exhaustive rather than sampled: there are only 65536 binary16 values, so
/// "tested" can mean every one of them.
#[test]
fn f16_decodes_every_bit_pattern() {
    for bits in 0u16..=u16::MAX {
        let got = f32::from_bits(f16_to_f32(bits));
        let want = reference_f16(bits);
        if want.is_nan() {
            assert!(got.is_nan(), "0x{:04x}: expected NaN, got {}", bits, got);
        } else {
            assert_eq!(got.to_bits(), want.to_bits(), "0x{:04x}", bits);
        }
    }
}

/// binary16 straight from its definition: sign, a biased 5-bit exponent and
/// a 10-bit significand, with the exponent extremes reserved.
fn reference_f16(bits: u16) -> f32 {
    let sign = if bits >> 15 == 1 { -1.0f32 } else { 1.0 };
    let exp = ((bits >> 10) & 0x1F) as i32;
    let mant = (bits & 0x3FF) as f32;
    match exp {
        0 => sign * mant / 1024.0 * 2.0f32.powi(-14),
        0x1F if mant == 0.0 => sign * f32::INFINITY,
        0x1F => f32::NAN,
        _ => sign * (1.0 + mant / 1024.0) * 2.0f32.powi(exp - 15),
    }
}

/// A 16-bit sheet holding 8-bit data narrows back exactly, which is what
/// lets one sheet type serve both depths without changing 8-bit output.
#[test]
fn the_sheet_round_trips_eight_bit_data() {
    for v in 0u8..=255 {
        let wide = widen(v);
        assert_eq!(wide, v as u16 * 257);
        assert_eq!(narrow(wide), v);
    }
}

/// Writes a real PNG through the real encoder and decodes it with the real
/// decoder.
#[test]
fn a_saved_png_carries_its_record_and_still_decodes() {
    let (w, h) = (3u32, 2u32);
    let sheet: Vec<u16> = (0..w * h * 4).map(|i| (i as u16) * 257).collect();
    // Non-ASCII on purpose: `tEXt` is Latin-1 and would mangle this, which is
    // why the chunks are `iTXt`.
    let scene = "[meta]\nname = \"Ωmega — α\"\n".to_string();
    let texts = vec![("fracturize:scene".to_string(), scene.clone())];
    let file = sheet_png("t.png", &sheet, w, h, BitDepth::Eight, &texts).unwrap();

    let decoder = png::Decoder::new(std::io::Cursor::new(file));
    let mut reader = decoder.read_info().unwrap();
    // The picture is intact: metadata must not cost the image.
    let mut buf = vec![0; reader.output_buffer_size().unwrap()];
    let info = reader.next_frame(&mut buf).unwrap();
    assert_eq!((info.width, info.height), (w, h));
    assert_eq!(&buf[..24], &(0..24).collect::<Vec<u8>>()[..]);
    let text = &reader.info().utf8_text;
    let chunk = text.iter().find(|c| c.keyword == "fracturize:scene").expect("the chunk");
    let mut chunk = chunk.clone();
    chunk.decompress_text().unwrap();
    assert_eq!(chunk.get_text().unwrap(), scene);

    // And a render with no record still writes a perfectly good PNG
    let plain = sheet_png("plain.png", &sheet, w, h, BitDepth::Sixteen, &vec![]).unwrap();
    let mut r2 = png::Decoder::new(std::io::Cursor::new(plain)).read_info().unwrap();
    let mut b2 = vec![0; r2.output_buffer_size().unwrap()];
    let info = r2.next_frame(&mut b2).unwrap();
    assert_eq!(info.width, w);
    assert_eq!(info.bit_depth, png::BitDepth::Sixteen);
    assert_eq!(&b2[..4], &[0, 0, 1, 1]);
}

/// A sweep says what it was asked for: both ends land on the sheet.
#[test]
fn a_sweep_includes_both_ends() {
    let sweep = GradeSweep { axis: GradeAxis::Exposure, from: UNIT, to: 4 * UNIT, steps: 4 };
    let none = Overrides { exposure: None, gamma: None, gamma_threshold: None, vibrancy: None };
    let base = Tonemap { exposure: UNIT, grade: Grade::neutral() };
    let sheet = retonemap(base, none, Some(sweep));
    assert_eq!(sheet.tiles[0].tonemap.exposure, UNIT);
    assert_eq!(sheet.tiles[3].tonemap.exposure, 4 * UNIT);
    assert_eq!(sheet.tiles[1].tonemap.exposure, 2 * UNIT);
    assert_eq!(sheet.tiles[1].label, "exposure 2.0000");
    assert_eq!((sheet.cols, sheet.rows), (2, 2));
    let one = retonemap(base, Overrides { exposure: Some(7), ..none }, None);
    assert_eq!(one.tiles.len(), 1);
    assert_eq!(one.tiles[0].tonemap.exposure, 7);
    assert_eq!(one.tiles[0].label, "");
}

/// One tile is one tile, and n tiles get as square a sheet as they can.
#[test]
fn the_sweep_sheet_is_as_square_as_it_can_be() {
    assert_eq!(grid_shape(1), (1, 1));
    assert_eq!(grid_shape(4), (2, 2));
    assert_eq!(grid_shape(9), (3, 3));
    // Never fewer cells than tiles, or a tile would have nowhere to go.
    for n in 1..40usize {
        let (c, r) = grid_shape(n);
        assert!((c * r) as usize >= n, "{} tiles do not fit {}x{}", n, c, r);
    }
    assert_eq!(grid_shape(0xFFFE_0001), (65_535, 65_535));
    assert_eq!(grid_shape(0xFFFE_0002), (65_536, 65_535));
    assert_eq!(grid_shape(u32::MAX as usize), (65_536, 65_536));
}

/// Each axis has to move its own knob and nothing else — the sweep loop
/// reuses one `Grade` per tile, so a stray write would leak across tiles.
#[test]
fn each_grade_axis_moves_only_its_own_knob() {
    for axis in [
        GradeAxis::Exposure,
        GradeAxis::Gamma,
        GradeAxis::GammaThreshold,
        GradeAxis::Vibrancy,
    ] {
        let (mut e, mut g) = (UNIT, Grade::neutral());
        axis.apply(UNIT / 2, &mut e, &mut g);
        let moved = (e != UNIT) as u8
            + (g.gamma != Grade::neutral().gamma) as u8
            + (g.gamma_threshold != Grade::neutral().gamma_threshold) as u8
            + (g.vibrancy != Grade::neutral().vibrancy) as u8;
        assert_eq!(moved, 1, "{:?} moved {} knobs, not 1", axis, moved);
    }
}

/// The labels agree with the command line's spellings modulo the separator.
#[test]
fn grade_axis_labels_match_their_cli_names() {
    for (axis, cli) in [
        (GradeAxis::Exposure, "exposure"),
        (GradeAxis::Gamma, "gamma"),
        (GradeAxis::GammaThreshold, "gamma-threshold"),
        (GradeAxis::Vibrancy, "vibrancy"),
    ] {
        assert_eq!(cli.replace('-', "_"), axis.label(), "{:?}", axis);
    }
}

/// The three things measured in render-target pixels have to agree, and
/// `Sampling` is the single place that decides them.
#[test]
fn sampling_measures_everything_against_the_accumulation() {
    let one = Sampling::new(1, 600);
    let four = Sampling::new(4, 600);
    assert_eq!(one.target_height(), 600);
    assert_eq!(four.target_height(), 2400);
    // A point subpixel at output but not at 4x accumulation resolution
    // must leave the unfiltered 1px path — that is the whole feature.
    let point_size = (1.5 / 600.0 * 0.9 * UNIT as f64) as i64;
    assert!(one.use_point_primitives(point_size, UNIT));
    assert!(!four.use_point_primitives(point_size, UNIT));
    // 0 is coerced to 1 rather than dividing by nothing
    assert_eq!(Sampling::new(0, 600).target_height(), 600);
}

#[test]
fn a_target_too_large_is_refused() {
    assert!(Sampling::new(2, 600).check_fits(8192, 800, 600).is_ok());
    assert!(Sampling::new(4, 600).check_fits(2048, 800, 600).is_err());
}

#[test]
fn a_run_keeps_count() {
    let mut r = Run::new(2);
    assert!(r.running());
    r.advance();
    r.advance();
    assert!(!r.running());
    assert_eq!(r.outcome(), Outcome::Complete);
    let mut s = Run::new(5);
    s.advance();
    s.stop();
    assert_eq!(s.outcome(), Outcome::Partial);
    assert!(Outcome::Complete.and(Outcome::Partial).is_partial());
    assert!(!Outcome::Complete.and(Outcome::Complete).is_partial());
    assert!(tiles_stopped(s).contains("1 of 5"));
    assert!(fill_stopped(s, 1000).contains("1000"));
    assert!(fill_frames(10, 32) > 0);
    let _ = drains_after(0);
}

#[test]
fn refusals_name_what_they_refuse() {
    assert!(reject_grade_out(None, "an animation").is_ok());
    assert!(reject_grade_out(Some("a.fgrade".to_string()), "an animation")
        .unwrap_err()
        .contains("an animation"));
    assert!(reject_spp(None, "a sweep").is_ok());
    assert!(reject_spp(Some(5), "a sweep").unwrap_err().contains("a sweep"));
    assert!(check_accumulation(true, GridMode::Single).is_ok());
    assert!(check_accumulation(false, GridMode::Single).is_err());
    assert!(check_accumulation(true, GridMode::Orbit { cols: 2, rows: 1 }).is_err());
}

#[test]
fn grade_buffers_are_for_single_splat_tiles() {
    assert_eq!(grade_save(false, true, 1), GradeSave::Nothing);
    assert_eq!(grade_save(true, true, 1), GradeSave::Write);
    assert_eq!(grade_save(true, true, 4), GradeSave::ManyTiles);
    assert_eq!(grade_save(true, false, 1), GradeSave::NoDensity);
    assert!(grade_save(true, true, 1).warning().is_none());
    assert!(grade_save(true, true, 4).warning().unwrap().contains("single tile"));
}

#[test]
fn closing_lines_say_what_was_drawn() {
    assert_eq!(
        still_summary(Outcome::Complete, (1600, 600), 2, (800, 600), 500000, "a.png"),
        "Rendered 1600x600 (2 tiles of 800x600, 500000 points) -> a.png"
    );
    let mut run = Run::new(9);
    run.advance();
    run.stop();
    assert_eq!(
        sheet_summary(run.outcome(), (30, 30), run, "mutation", (10, 10), "s.png"),
        "Stopped, partial sheet 30x30 (1 of 9 mutation tiles of 10x10) -> s.png"
    );
    assert!(tile_line(0, 1, "base").contains("base"));
    assert_eq!(
        print_timing(0, UNIT, 3 * UNIT, 3 * UNIT + UNIT / 2, 4 * UNIT),
        "Timing: setup 1.00s | chaos fill 2.00s | render 0.50s | encode+save 0.50s | total 4.00s"
    );
    assert!(encode_err("a.png", "broke").contains("a.png"));
}

#[test]
fn rows_are_padded_for_the_copy() {
    assert_eq!(padded_bytes_per_row(64, 4), 256);
    assert_eq!(padded_bytes_per_row(65, 4), 512);
    assert_eq!(BitDepth::Eight.bits(), 8);
    assert_eq!(BitDepth::Sixteen.bits(), 16);
    assert_eq!(BitDepth::Eight.bytes_per_texel(), 4);
    assert_eq!(BitDepth::Sixteen.bytes_per_texel(), 8);
}

#[test]
fn tiles_land_in_their_cells() {
    let shape = SheetShape { width: 1, height: 1, cols: 2, rows: 1 };
    let mut sheet = shape.blank([9, 8, 7, 6]);
    assert_eq!(sheet.len(), 8);
    put_tile(&mut sheet, shape, 1, 0, &vec![1, 2, 3, 4]);
    assert_eq!(sheet, vec![9, 8, 7, 6, 1, 2, 3, 4], "a cell with no tile keeps the clear colour");
    assert_eq!(narrowed(&vec![257, 514]), vec![1, 2]);
    assert_eq!(big_endian(&vec![258]), vec![1, 2]);
    assert_eq!(image_data(&vec![257], BitDepth::Eight), vec![1]);
    assert_eq!(image_data(&vec![257], BitDepth::Sixteen), vec![1, 1]);
    let mut row = vec![0u8; 256];
    row[..4].copy_from_slice(&[1, 2, 3, 4]);
    assert_eq!(eight_bit_tile(&row, 256, 1, 1), vec![257, 514, 771, 1028]);
    let mut halves = vec![0u8; 256];
    halves[0] = 0x00;
    halves[1] = 0x3C;
    assert_eq!(f32::from_bits(half_texels(&halves, 256, 1, 1)[0]), 1.0);
    let mut floats = vec![0u8; 256];
    floats[..4].copy_from_slice(&1.5f32.to_le_bytes());
    assert_eq!(f32::from_bits(float_texels(&floats, 256, 1, 1)[0]), 1.5);
}

#[test]
fn grids_are_built_in_reading_order() {
    assert_eq!(cell(5, 4), (1, 1));
    assert_eq!(grid_axis(1), vec![(0, 1)]);
    let axis = grid_axis(3);
    assert_eq!(axis.len(), 3);
    assert_eq!(axis[0].0, -axis[0].1);
    assert_eq!(axis[2].0, axis[2].1);
    assert_eq!(build_tiles(GridMode::Single), vec![TileView::Base]);
    let orbit = build_tiles(GridMode::Orbit { cols: 2, rows: 2 });
    assert_eq!(orbit.len(), 4);
    assert_eq!(orbit[1], TileView::Turned { k: 1, n: 4 });
    assert_eq!(GridMode::Orbit { cols: 2, rows: 2 }.tile_count(), (2, 2));
    assert_eq!(base_label(UNIT, 0, 3 * UNIT), "yaw 1.0° pitch 0.0° dist 3.00");
    assert_eq!(orbit_label(90 * UNIT, 1_570_796_327), "yaw 90.0° (1.5708)");
    assert!(move_label((0, 1), (0, 1), UNIT, 0, 0, UNIT).contains("yaw 0.0000"));
    assert!(label_tile(800, 600, 0, 0, 1, 8).is_some());
}

#[test]
fn laps_cover_the_target() {
    assert_eq!(laps_for(100, 10, 10, 3000), 4);
    assert_eq!(laps_for(1, 10, 10, 3000), 1);
    let mut a = Accumulation::new(100, 10, 10, 3000);
    a.lap_done(false);
    assert_eq!(a.accumulated(), 3000);
    a.lap_done(true);
    assert_eq!(
        a.stopped_line(),
        "stopped after 2 of 4 laps — keeping the 60 samples/px accumulated"
    );
    assert_eq!(
        a.summary("a.png"),
        "Stopped, partial render 10x10 (60 samples/px from 2 laps of 3000 points) -> a.png"
    );
    assert_eq!(a.achieved_spp(), 60 * UNIT as u128);
    let mut whole = Accumulation::new(150, 100, 100, 1_000_000);
    assert_eq!(whole.laps.total, 2);
    whole.lap_done(false);
    whole.lap_done(false);
    assert_eq!(whole.accumulated(), 2_000_000);
    assert_eq!(whole.achieved_spp(), 200 * UNIT as u128, "what was reached, not what was asked");
    assert!(a.start_lines(20, 20, 16).contains("--accumulate is ignored"));
}

#[test]
fn animations_are_counted_in_frames() {
    assert_eq!(even_size(801, 600), (800, 600));
    let (seconds, frames) = frame_count(Some(2 * UNIT), 9 * UNIT, 30);
    assert_eq!((seconds, frames), (2 * UNIT, 60));
    assert_eq!(frame_time(0, 4, true), (0, 4));
    assert_eq!(frame_time(3, 4, false), (3, 3));
    let mut c = Carried::new();
    c.carry(2);
    assert_eq!(c.carry(5), 3);
    assert_eq!(on_stop(false, 1), StopEffect::Cancel);
    assert_eq!(on_stop(false, 2), StopEffect::Keep);
    assert_eq!(on_stop(true, 9), StopEffect::Cancel);
    let mut run = Run::new(10);
    run.advance();
    run.advance();
    run.advance();
    // Three frames at sixty a second is a shade over a twentieth in single
    // precision, so it rounds up.
    assert_eq!(
        frames_stopped(run, 60),
        "stopped after 3 of 10 frames — muxing the 0.1s that rendered"
    );
    let of = |done: u32, fps: u32| {
        let line = frames_stopped(Run { total: u32::MAX, done, stopped: false }, fps);
        let from = line.rfind("the ").unwrap() + 4;
        line[from..line.len() - "s that rendered".len()].to_string()
    };
    for (done, fps) in [
        (16_777_217u32, 1u32),
        (33_554_435, 3),
        (u32::MAX, 1),
        (u32::MAX, u32::MAX),
        (3_000_000_001, 60),
        (123_456_789, 16_777_219),
        (4_000_000_123, 7),
        (5, 0),
        (0, 24),
    ] {
        assert_eq!(of(done, fps), format!("{:.1}", done as f32 / fps as f32), "{done} at {fps}");
    }
    assert!(start_line(60, 2 * UNIT, 30, 4, "closed loop", false).contains("60 frames (2.0s at 30 fps)"));
}

#[test]
fn variants_are_named_apart() {
    assert_ne!(variant_seed(1, 0), variant_seed(1, 1));
    assert_eq!(variant_path("out/sheet", 3), "out/sheet.mut3.toml");
    assert!(is_stale_variant("sheet.mut3.toml", "sheet"));
    assert!(!is_stale_variant("sheet.mutx.toml", "sheet"));
    assert!(variant_line(0, 0, "a", "b").contains("b"));
    assert_eq!(variant_caption(0, "a"), "ORIGINAL");
    assert_eq!(variant_caption(3, "a"), "a");
}

/// A duration is a single-precision number, and so is what it is multiplied
/// to.
#[test]
fn frames_are_counted_in_single_precision() {
    assert_eq!((2.05f32 * 10.0).round() as u32, 21);
    assert_eq!(frame_count(Some(2_049_999_952), 9 * UNIT, 10).1, 21);
}

#[test]
fn densities_are_held_in_single_precision() {
    let mut a = Accumulation::new(1, 3, 1, 50_331_649);
    for _ in 0..a.laps.total {
        a.lap_done(false);
    }
    let (held, pixels) = (a.accumulated() as f64, 3.0f64);
    let shown = format!("({:.0} samples/px", (held / pixels) as f32);
    assert!(a.summary("a.png").contains(&shown), "{} lacks {shown}", a.summary("a.png"));
}

#[test]
fn runs_say_how_long_they_took() {
    assert_eq!(threads_line(1), "Encoding on 1 thread");
    assert_eq!(threads_line(8), "Encoding on 8 threads");
    assert_eq!(
        timing_line(0, UNIT, 3 * UNIT, 6 * UNIT, 10 * UNIT),
        "Timing: setup 1.00s | chaos fill 2.00s | render+encode 3.00s | flush+mux 4.00s | total 10.00s"
    );
    assert_eq!(
        sheet_timing(0, UNIT, 4 * UNIT, 5 * UNIT, UNIT, 12),
        "Timing: setup 1.00s | fills 1.00s (12 tiles) | render+readback 2.00s | encode+save 1.00s | total 5.00s"
    );
}

#[test]
fn a_buffer_graded_anew_says_how() {
    assert_eq!(
        regraded((640, 480), "1.5", "2.2", "0.01", "1", "a.png"),
        "Re-graded 640x480 (exposure 1.5, gamma 2.2, threshold 0.01, vibrancy 1) -> a.png"
    );
    assert_eq!(
        regraded_sweep(4, (64, 48), GradeAxis::Exposure, "0.5", "2", "b.png"),
        "Re-graded 4 tiles of 64x48, exposure from 0.5 to 2 -> b.png"
    );
}
