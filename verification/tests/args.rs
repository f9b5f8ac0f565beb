//! What the flags of a run ask for.

use fracturize::args::{
    chosen_palette,
    adjust_palette, apply_zoom_args, grade_path, grid_mode, job, ladder, one_gradient, origin,
    palette_file, parse_generator, parse_grade_range, parse_grid, parse_vec3,
    print_palette_library, resolve_palette_arg, sampling, set_warning, source_name, supersample,
    threads, Ask, Effort, Job, Origin, PaletteSource, Sampled, Shown, SweepRange, ZoomFlags,
};
use fracturize::grading::GradeAxis;
use fracturize::offline::UNIT;
use fracturize::palette::random::Generator;
use fracturize::palette::{library, Interpolate};
use fracturize::prefs::{prefs_path, OrbitStyle, Prefs};
use fracturize::quantity::Color;
use fracturize::scene::ZoomSpec;
use fracturize::tiles::GridMode;

fn fx(v: f64) -> i64 {
    (v * UNIT as f64).round() as i64
}

fn error_of<T>(r: Result<T, String>) -> String {
    match r {
        Ok(_) => panic!("it was accepted"),
        Err(e) => e,
    }
}

#[test]
fn effort_is_decades_of_samples() {
    let spp: Vec<u32> = [Effort::Tiny, Effort::Small, Effort::Medium, Effort::Large, Effort::Huge]
        .iter()
        .map(|e| e.spp())
        .collect();
    assert_eq!(spp, vec![1, 10, 100, 1_000, 10_000]);
    let pixels = 1920 * 1080;
    assert_eq!(Effort::Tiny.points(100, false), 1_000_000);
    assert_eq!(Effort::Small.points(pixels, false), 20_736_000);
    assert_eq!(Effort::Small.points(pixels, true), 20_000_000);
    assert_eq!(Effort::Huge.points(pixels, false), 100_000_000);
    assert!(Effort::Small.reachable_without_accumulating(pixels));
    assert!(!Effort::Medium.reachable_without_accumulating(pixels));
}

#[test]
fn a_tier_out_of_reach_is_said() {
    let asked = Sampled {
        width: 1920,
        height: 1080,
        splat: false,
        effort: Some(Effort::Medium),
        spp: None,
        points: None,
    };
    let s = sampling(asked);
    assert_eq!((s.points, s.spp), (Some(100_000_000), None));
    let note = s.note.unwrap();
    assert!(note.contains("--effort Medium is 100 samples/px"), "{note}");
    assert!(note.contains("at 1920x1080 needs a 207M point buffer"), "{note}");

    let s = sampling(Sampled { splat: true, ..asked });
    assert_eq!((s.points, s.spp), (Some(20_000_000), Some(100)));
    assert!(s.note.is_none());

    let s = sampling(Sampled { splat: true, spp: Some(7), points: Some(9), ..asked });
    assert_eq!((s.points, s.spp), (Some(9), Some(7)), "flags win over the tier");
}

#[test]
fn three_numbers_are_three() {
    assert_eq!(parse_vec3("1, -2.5 ,3e2").unwrap(), vec!["1", "-2.5", "3e2"]);
    assert_eq!(
        error_of(parse_vec3("1,2")),
        "expected three comma-separated numbers, got '1,2'"
    );
    assert_eq!(error_of(parse_vec3("1,two,3")), "'two' is not a number");
}

#[test]
fn a_grade_range_is_useful_unless_given() {
    match parse_grade_range(GradeAxis::Gamma, None) {
        Ok(SweepRange::Useful(from, to)) => {
            assert_eq!((from, to), GradeAxis::Gamma.default_range())
        }
        _ => panic!("a knob has a useful range"),
    }
    match parse_grade_range(GradeAxis::Gamma, Some(" 1 : 4.5")) {
        Ok(SweepRange::Given(from, to)) => assert_eq!((from.as_str(), to.as_str()), ("1", "4.5")),
        _ => panic!("a range was given"),
    }
    let err = |s: &str| error_of(parse_grade_range(GradeAxis::Gamma, Some(s)));
    assert_eq!(err("4"), "Invalid --grade-range '4': expected FROM:TO, e.g. 1:4");
    assert_eq!(err("x:4"), "Invalid range start 'x'");
    assert_eq!(err("1: y"), "Invalid range end ' y'");
}

#[test]
fn a_grid_is_columns_by_rows() {
    assert_eq!(parse_grid("4x2").unwrap(), (4, 2));
    assert_eq!(parse_grid(" 3 X 3 ").unwrap(), (3, 3));
    assert_eq!(error_of(parse_grid("42")), "Invalid grid '42': expected COLSxROWS, e.g. 4x2");
    assert_eq!(error_of(parse_grid("ax2")), "Invalid grid columns 'a'");
    assert_eq!(error_of(parse_grid("4xb")), "Invalid grid rows 'b'");
    assert_eq!(error_of(parse_grid("9x8")), "Grid 9x8 out of range (1..=64 tiles)");
    assert_eq!(error_of(parse_grid("0x8")), "Grid 0x8 out of range (1..=64 tiles)");

    assert_eq!(grid_mode(None, None, 5).unwrap(), GridMode::Single);
    assert_eq!(grid_mode(Some("4x2"), None, 5).unwrap(), GridMode::Orbit { cols: 4, rows: 2 });
    assert_eq!(grid_mode(None, Some("3x3"), 5).unwrap(), GridMode::Move { cols: 3, rows: 3, step: 5 });
    assert!(error_of(grid_mode(Some("1x1"), Some("1x1"), 5)).contains("mutually exclusive"));
}

#[test]
fn a_generator_is_any_or_named() {
    assert_eq!(parse_generator("any").unwrap(), None);
    assert_eq!(parse_generator("HARMONY").unwrap(), Some(Generator::Harmony));
    assert!(error_of(parse_generator("nope")).contains("unknown generator 'nope'"));
    assert!(one_gradient(true, false).is_ok());
    assert!(error_of(one_gradient(true, true)).contains("pick one"));
}

#[test]
fn a_palette_is_kept_or_in_a_file() {
    assert!(matches!(
        resolve_palette_arg("Ember", true),
        Ok(PaletteSource::Kept(p)) if p.name.as_deref() == Some("ember")
    ));
    assert!(matches!(resolve_palette_arg("ember.ugr#x", true), Ok(PaletteSource::File)));
    let err = error_of(resolve_palette_arg("nope", false));
    assert!(err.starts_with("'nope' is neither a library palette nor a file. Library: "), "{err}");
    assert!(err.ends_with(&library::listed()), "{err}");
    assert_eq!(palette_file("a/b.ugr#dawn"), "a/b.ugr");
}

#[test]
fn flags_adjust_the_palette_there_is() {
    let p = adjust_palette(library::get("ember"), Some(fx(1.25)), true, Some("oklab")).unwrap().unwrap();
    assert_eq!(p.rotate, fx(0.25));
    assert!(p.reverse);
    assert_eq!(p.interpolate, Interpolate::Oklab);
    assert!(adjust_palette(None, None, false, None).unwrap().is_none());
    assert!(error_of(adjust_palette(None, None, true, None)).contains("need a palette"));
    let bad = adjust_palette(library::get("ember"), None, false, Some("hsv"));
    assert_eq!(error_of(bad), "--palette-interpolate: expected rgb or oklab");
}

#[test]
fn the_library_is_printed_two_lines_each() {
    let c = Color { red: 255, green: 128, blue: 0, luminance: 0 };
    let shown: Vec<Shown> =
        (0..library::len()).map(|_| Shown { swatch: vec![c; 4], ramp: vec![c; 2] }).collect();
    let s = print_palette_library(&shown, false);
    assert!(s.starts_with(&format!("{} built-in palettes:\n\n  ", library::len())), "{s}");
    assert_eq!(s.lines().count(), 2 + 2 * library::len() + 3);
    for name in library::names() {
        assert!(s.contains(name) && s.contains(library::blurb(name).unwrap()));
    }
    assert!(s.contains("#ff8000") && !s.contains('\u{1b}'));
    assert!(print_palette_library(&shown, true).contains('\u{1b}'));
}

#[test]
fn a_zoom_takes_a_map() {
    let plain = ZoomSpec { map: 0, radius: 1, levels: 2, octave_falloff: 3, edge_guard: 4 };
    let none = ZoomFlags { levels: None, radius: None, falloff: None, guard: None };
    let some = ZoomFlags { levels: Some(20), radius: None, falloff: None, guard: Some(40) };
    assert_eq!(apply_zoom_args(None, None, plain, some), None, "numbers alone start none");
    assert_eq!(
        apply_zoom_args(None, Some(3), plain, some),
        Some(ZoomSpec { map: 3, levels: 20, edge_guard: 40, ..plain })
    );
    let scene = ZoomSpec { map: 1, radius: 10, ..plain };
    assert_eq!(apply_zoom_args(Some(scene), None, plain, none), Some(scene));
    assert_eq!(
        apply_zoom_args(Some(scene), Some(2), plain, none),
        Some(ZoomSpec { map: 2, ..scene })
    );
}

#[test]
fn a_scene_has_one_origin() {
    assert_eq!(origin(true, true, true), Origin::File);
    assert_eq!(origin(false, true, true), Origin::Blank);
    assert_eq!(origin(false, false, true), Origin::Random);
    assert_eq!(origin(false, false, false), Origin::BuiltIn);
    assert_eq!(source_name(Some("a.toml"), true, true), "a.toml");
    assert_eq!(source_name(None, false, false), "built-in default");
    assert!(set_warning(Origin::File, 3).is_none());
    assert!(set_warning(Origin::Blank, 0).is_none());
    assert!(set_warning(Origin::Random, 1).unwrap().starts_with("warning: --set had no effect."));
}

#[test]
fn a_render_does_one_thing() {
    let a = Ask { grid: GridMode::Single, mutations: None, sweep: false, transparent: false, file: true };
    let grid = GridMode::Orbit { cols: 2, rows: 2 };
    assert_eq!(job(&a, None).unwrap(), Job::Still);
    assert_eq!(job(&a, Some(("mp4", "H.264"))).unwrap(), Job::Animation);
    assert_eq!(job(&Ask { sweep: true, ..a }, None).unwrap(), Job::Sweep);
    assert_eq!(job(&Ask { mutations: Some(24), ..a }, None).unwrap(), Job::Mutations(24));

    let err = |a: Ask, m: Option<(&str, &str)>| error_of(job(&a, m));
    let mp4 = Some(("mp4", "H.264"));
    assert!(err(Ask { grid, ..a }, mp4).starts_with("animation (.mp4) cannot be combined"));
    assert!(err(Ask { transparent: true, ..a }, mp4).contains(".mp4 output (H.264 has no alpha"));
    assert!(err(Ask { sweep: true, grid, ..a }, None).contains("--orbit-grid"));
    assert!(err(Ask { sweep: true, mutations: Some(3), ..a }, None).contains("--mutations"));
    assert!(err(Ask { sweep: true, file: false, ..a }, None).contains("needs --scene"));
    assert!(err(Ask { mutations: Some(3), grid, ..a }, None).contains("--orbit-grid"));
    assert_eq!(err(Ask { mutations: Some(25), ..a }, None), "--mutations must be 1..=24");
    assert_eq!(err(Ask { mutations: Some(0), ..a }, None), "--mutations must be 1..=24");
}

#[test]
fn numbers_fall_back_in_order() {
    assert_eq!(ladder(Some(1), Some(2), 3), 1);
    assert_eq!(ladder(None, Some(2), 3), 2);
    assert_eq!(ladder(None, None, 3), 3);
    assert_eq!((supersample(None, 4), supersample(Some(0), 4), supersample(Some(9), 4)), (2, 1, 4));
    assert_eq!((threads(None, 8), threads(Some(0), 8), threads(Some(3), 8)), (8, 1, 3));
    assert_eq!(grade_path("", "out/a.png"), "out/a.fgrade");
    assert_eq!(grade_path("b.fgrade", "out/a.png"), "b.fgrade");
}

#[test]
fn preferences_start_plain() {
    let p = Prefs::default();
    assert!(!p.invert_pitch);
    assert_eq!(p.orbit_style, OrbitStyle::Trackball);
    assert_eq!((p.mutate_strength, p.ui_scale), (fx(1.0), fx(1.0)));
    assert_eq!(p.gpu_share, None);
}

#[test]
fn preferences_are_kept_under_the_configuration() {
    let at = |c: Option<&str>, h: Option<&str>| prefs_path(c, h);
    assert_eq!(at(Some("/c"), Some("/h")).as_deref(), Some("/c/fracturize/prefs.toml"));
    assert_eq!(at(None, Some("/h")).as_deref(), Some("/h/.config/fracturize/prefs.toml"));
    assert_eq!(at(None, None), None);
}

/// A palette that was named wins over one that was rolled, and either over the
/// scene's own.
#[test]
fn the_palette_that_was_asked_for_wins() {
    let p = |name: &str| library::get(name);
    let chosen = |a, b, c| chosen_palette(a, b, c).map(|p| p.name);
    assert_eq!(chosen(p("ember"), p("dusk"), p("ember")), chosen(p("ember"), None, None));
    assert_eq!(chosen(None, p("ember"), None), chosen(p("ember"), None, None));
    assert_eq!(chosen(None, None, p("ember")), chosen(p("ember"), None, None));
    assert!(chosen(p("ember"), None, None).is_some());
    assert!(chosen_palette(None, None, None).is_none());
}
