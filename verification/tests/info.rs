use rand::rngs::StdRng;
use rand::SeedableRng;
use fracturize::camera::{effective_camera, effective_camera_folded, base_setup, CameraOverride, HazeStrength, OrbitCamera};
use fracturize::info::{fmt_scale, notes_section, report, same_scene, strip_prefix, Notes, Subject};
use fracturize::layout::{spread, wrap, Cell, Report, Section, WIDTH};
use fracturize::randomize::{roll_background, roll_count, roll_map};
use fracturize::path::{CameraPath, PathKey, ZoomLoop};
use fracturize::quantity::{angle, hex, hex_ramp, hex_tinted, magnitude, point, swatch, Color, Point};
use fracturize::scene::{
    scene_zoom, Applied, ColorMode, Flight, Gradient, Loops, Measured, Renorm, Route, SavedView,
    Scene, Transform, Zoom, ZoomSpec,
};

const UNIT: i64 = 1_000_000_000;

fn fixed(v: f64) -> i64 {
    (v * UNIT as f64).round() as i64
}

fn at(x: f64, y: f64, z: f64) -> Point {
    Point { x: fixed(x), y: fixed(y), z: fixed(z) }
}

fn gray(v: u8) -> Color {
    Color { red: v, green: v, blue: v, luminance: v as i64 * UNIT / 255 }
}

fn half_scale(x: f64) -> Transform {
    Transform {
        name: None,
        weight: UNIT,
        contraction: UNIT / 2,
        scale: at(0.5, 0.5, 0.5),
        rotation: at(0.0, 0.0, 0.0),
        translation: at(x, 0.0, 0.0),
        color_value: 0,
        color_speed: UNIT / 2,
        sampled: gray(128),
        variations: "linear".to_string(),
    }
}

fn renorm(map: usize) -> Renorm {
    Renorm {
        map,
        fixed_point: at(0.0, 0.0, 0.0),
        scale: UNIT / 2,
        octaves: UNIT,
        twist: 0,
        periods: 14 * UNIT,
        guard: Some((3 * UNIT, 4 * UNIT)),
        guard_width: UNIT,
        reach: 3 * UNIT,
        min_radius: 2 * UNIT,
        covers_the_view: true,
        similar: true,
        defect: 0,
    }
}

fn blank() -> Scene {
    Scene {
        name: "Untitled".to_string(),
        author: "Unknown".to_string(),
        transforms: vec![half_scale(-0.5), half_scale(0.5)],
        colors: vec![gray(200), gray(40)],
        color_mode: ColorMode::Transforms,
        color_speed: UNIT / 2,
        color_falloff: 0,
        color_contrast: UNIT,
        has_palette: false,
        gradient: Gradient {
            description: "ring".to_string(),
            mean_luminance: UNIT / 2,
            swing: UNIT / 2,
            ramp: (0..12).map(|i| gray(i * 20)).collect(),
            swatch: (0..48).map(|i| gray(i * 5)).collect(),
        },
        point_size: fixed(0.012),
        point_count: 500_000,
        point_count_defaulted: true,
        haze: 0,
        decay: UNIT,
        exposure: UNIT,
        background: at(0.0, 0.0, 0.0),
        camera: OrbitCamera { yaw: 0, pitch: 0, roll: 0, distance: 3 * UNIT, focus: at(0.0, 0.0, 0.0) },
        camera_path: None,
        zoom: None,
        zoom_trials: vec![Ok(renorm(0)), Ok(renorm(1))],
        measured: Some(Measured {
            center: at(0.0, 0.0, 0.0),
            spread: at(1.0, 0.0, 0.0),
            radius: UNIT,
            occupancy: fixed(0.02),
        }),
    }
}

/// A view with nothing optional set: the minimum a person can write by
/// hand, and the case where "which rows are missing?" matters most.
fn bare_view() -> SavedView {
    SavedView {
        scene: None,
        rotation: fixed(1.25),
        pitch: fixed(0.35),
        roll: 0,
        distance: 4 * UNIT,
        focus: at(0.1, 0.2, 0.3),
        offset: at(0.0, 0.0, 0.0),
        folded: None,
        point_size: fixed(0.002),
        haze_near: 3 * UNIT,
        haze_far: fixed(4.5),
        haze_transmittance: UNIT,
        haze_saturation: UNIT,
        haze: Some(0),
        haze_recovered: 0,
        haze_band_pinned: false,
        color_falloff: None,
        color_contrast: None,
        renderer: None,
        exposure: None,
    }
}

#[test]
fn reports_every_transform_and_the_zoom_verdict() {
    let scene = blank();
    let text = report(&Subject::new(&scene, "blank"));
    assert!(text.contains("maps     2"), "{}", text);
    // The two maps are plain half-scales: both eligible
    assert!(text.contains("--zoom 0"), "{}", text);
    assert!(text.contains("--zoom 1"), "{}", text);
    // and the measurement ran
    assert!(text.contains("centre"), "{}", text);
}

#[test]
fn weights_are_reported_as_shares_of_the_walk() {
    let mut scene = blank();
    scene.transforms[0].weight = 3 * UNIT;
    scene.transforms[1].weight = UNIT;
    let text = report(&Subject::new(&scene, "test"));
    assert!(text.contains("75.0%"), "{}", text);
    assert!(text.contains("25.0%"), "{}", text);
}

/// No view, no flags: no view block and no second camera line.
#[test]
fn a_plain_scene_reports_no_view() {
    let scene = blank();
    let text = report(&Subject::new(&scene, "blank"));
    assert!(!text.contains("view "), "{}", text);
    assert!(!text.contains("the scene's own:"), "{}", text);
    assert!(text.contains("from the scene"), "{}", text);
}

/// The block's whole point: every key, every time, including the ones this
/// view didn't set.
#[test]
fn the_view_block_has_a_fixed_shape() {
    let scene = blank();
    let v = bare_view();
    let text = report(&Subject::new(&scene, "blank").with_view("views/v.toml", &v));
    for key in [
        "of scene", "yaw", "pitch", "roll", "distance", "focus", "point_size", "haze", "haze band",
        "color_falloff", "color_contrast", "renderer", "exposure",
    ] {
        assert!(text.contains(key), "missing row {:?} in:\n{}", key, text);
    }
    // Unset optionals say so rather than disappearing
    assert_eq!(text.matches("unset").count(), 5, "{}", text);
    // and each override says what it replaced
    assert!(text.contains("point_size        0.0020   scene      0.0120"), "{}", text);
    assert!(text.contains("renderer           unset   default  points"), "{}", text);
}

/// A view is the framing that would render, so the camera line reports it
/// — with the scene's own kept underneath rather than overwritten.
#[test]
fn the_camera_line_follows_the_view() {
    let scene = blank();
    let v = bare_view();
    let text = report(&Subject::new(&scene, "blank").with_view("views/v.toml", &v));
    assert!(text.contains("yaw         1.2500 rad"), "{}", text);
    assert!(text.contains("focus     ( 0.100,  0.200,  0.300)"), "{}", text);
    assert!(text.contains("from --view"), "{}", text);
    assert!(text.contains("the scene's own:"), "{}", text);
}

/// Flags are the most specific thing anyone said, so they win over a view
/// here exactly as they do at render time.
#[test]
fn camera_flags_win_over_the_view() {
    let scene = blank();
    let v = bare_view();
    let text = report(
        &Subject::new(&scene, "blank")
            .with_view("views/v.toml", &v)
            .with_camera(CameraOverride { distance: Some(fixed(9.5)), ..Default::default() }),
    );
    assert!(text.contains("distance     9.500"), "{}", text);
    assert!(text.contains("--view, then the camera flags"), "{}", text);
}

/// Angles carry both units and positions always have three components.
#[test]
fn quantities_are_written_one_way() {
    assert_eq!(point(at(1.0, -0.5, 0.0)), "( 1.000, -0.500,  0.000)");
    assert_eq!(point(at(0.0, 0.0, 0.0)).len(), point(at(-1.0, -1.0, -1.0)).len());
    assert!(angle(fixed(std::f64::consts::PI)).contains("rad"));
    assert!(angle(fixed(std::f64::consts::PI)).contains("180.0°"));
    assert_eq!(angle(fixed(1e-8)), "  0.0000 rad (   0.0°)");
    assert_eq!(angle(fixed(-0.5)), " -0.5000 rad ( -28.6°)");
}

/// A flame as the dice make one: maps of every size and place, with names and
/// blends to tell of.
fn rolled(seed: u64) -> Scene {
    let mut rng = StdRng::seed_from_u64(seed);
    let n = roll_count(&mut rng);
    let mut scene = blank();
    scene.transforms.clear();
    scene.colors.clear();
    for i in 0..n {
        let r = roll_map(&mut rng);
        let scale = (r.log_scale as f64 / UNIT as f64).exp();
        scene.transforms.push(Transform {
            name: Some(format!("T{i}")),
            weight: r.weight,
            contraction: fixed(scale),
            scale: at(scale, scale, scale),
            rotation: Point { x: r.first_angle, y: r.second_angle, z: -r.first_angle },
            translation: r.direction,
            color_value: fixed(i as f64 / n as f64),
            color_speed: UNIT / 2,
            sampled: gray(10 * i as u8),
            variations: "0.55 spherical + 0.34 swirl + 0.12 horseshoe".to_string(),
        });
        scene.colors.push(gray(20 * i as u8));
    }
    let b = roll_background(&mut rng);
    scene.background = Point { x: b.level, y: b.level / 2, z: 0 };
    scene.zoom_trials = (0..n).map(|i| Ok(renorm(i))).collect();
    scene
}

fn keeps_the_margin(text: &str) {
    for line in text.lines() {
        assert!(
            line.chars().count() <= WIDTH,
            "{} columns: {:?}",
            line.chars().count(),
            line
        );
    }
}

#[test]
fn no_line_is_wider_than_the_margin() {
    for scene in [blank(), rolled(7)] {
        keeps_the_margin(&report(&Subject::new(&scene, "test")));
    }
}

/// Nothing that a file says is too long for the page.
#[test]
fn long_texts_are_broken_at_the_margin() {
    let long = "a-name-that-goes-on/".repeat(12);
    let mut scene = rolled(3);
    scene.name = long.clone();
    scene.author = "someone with a title ".repeat(9);
    scene.transforms[0].name = Some(long.clone());
    scene.transforms[0].variations = "0.1 swirl + ".repeat(20);
    scene.gradient.description = long.clone();
    let applied = [Applied { path: long.clone(), from: Some(long.clone()), to: long.clone() }];
    let plain = report(&Subject::new(&scene, &long).with_set(&applied));
    keeps_the_margin(&plain);
    let all: String = plain.chars().filter(|c| !c.is_whitespace()).collect();
    assert!(all.contains(&long), "a long name is broken, not shortened:\n{plain}");

    let painted = report(&Subject::new(&scene, &long).with_set(&applied).with_color(true));
    let mut rest = painted.chars();
    for c in plain.chars() {
        assert!(rest.any(|p| p == c), "colour took {c:?} away");
    }
}

#[test]
fn colour_is_opt_in_and_additive() {
    let scene = blank();
    let plain = report(&Subject::new(&scene, "blank"));
    assert!(!plain.contains('\x1b'), "escape codes in the default output:\n{}", plain);

    let painted = report(&Subject::new(&scene, "blank").with_color(true));
    assert!(painted.contains('\x1b'), "--color emitted nothing");
    // Every hex stop still reads as text with the paint stripped out
    for stop in plain.lines().filter(|l| l.contains('#')) {
        assert!(strip_ansi(&painted).contains(stop.trim_end()), "lost: {:?}", stop);
    }
}

/// Once the paint is stripped, every line of the plain report is a line of the
/// painted one, in the same order.
#[test]
fn whole_lines_survive_paint() {
    for seed in 0..20 {
        let scene = rolled(seed);
        let plain = report(&Subject::new(&scene, "rolled"));
        assert!(!plain.contains('\x1b'));
        let painted = strip_ansi(&report(&Subject::new(&scene, "rolled").with_color(true)));
        let mut lines = painted.lines();
        for line in plain.lines() {
            assert!(lines.any(|l| l == line), "lost: {line:?}");
        }
    }
}

/// A quantity is a single-precision number before it is text: 0.015 is a shade
/// less than that.
#[test]
fn quantities_are_held_in_single_precision() {
    let mut scene = blank();
    scene.haze = fixed(0.015);
    let text = report(&Subject::new(&scene, "blank"));
    assert!(text.contains("haze            0.01"), "{text}");
    assert_eq!(format!("{:.2}", 0.015f32), "0.01");
}

fn strip_ansi(s: &str) -> String {
    let mut out = String::new();
    let mut chars = s.chars();
    while let Some(c) = chars.next() {
        if c == '\x1b' {
            for c in chars.by_ref() {
                if c == 'm' {
                    break;
                }
            }
        } else {
            out.push(c);
        }
    }
    out
}

/// A clean scene says so in one line, and a broken one names what is wrong
/// and where to look.
#[test]
fn notes_are_collected_into_one_block() {
    assert!(notes_section(&Notes::new()).rows.len() == 1);
    let mut none = String::new();
    notes_section(&Notes::new()).render(&mut none, false);
    assert_eq!(none, "notes    none\n");

    let mut broken = blank();
    broken.transforms[1].weight = 0;
    let text = report(&Subject::new(&broken, "blank"));
    assert!(text.contains("maps    [1] #1 has weight 0 and never fires"), "{}", text);
}

/// A map that reflects and a map that expands say so.
#[test]
fn contraction_shows_reflection_and_expansion() {
    let mut scene = blank();
    scene.transforms[0].contraction = -UNIT / 2;
    scene.transforms[1].contraction = 2 * UNIT;
    let text = report(&Subject::new(&scene, "blank"));
    assert!(text.contains("contraction -0.500"), "{}", text);
    assert!(text.contains("expansion    2.000"), "{}", text);
    assert!(text.contains("expands (2.000)"), "{}", text);
}

/// Every map is four lines whatever it contains.
#[test]
fn a_map_is_always_four_lines() {
    let scene = blank();
    let text = report(&Subject::new(&scene, "blank"));
    let maps: Vec<&str> = text
        .lines()
        .skip_while(|l| !l.starts_with("maps"))
        .take_while(|l| !l.is_empty())
        .collect();
    // header + 2 maps x 4 lines + 3 footnote lines
    assert_eq!(maps.len(), 12, "{:#?}", maps);
    assert!(maps.iter().filter(|l| l.contains("linear")).count() == 2, "{:#?}", maps);
}

#[test]
fn suggestions_are_runnable() {
    let scene = blank();
    let text = report(&Subject::new(&scene, "blank"));
    assert!(text.contains("-S camera.distance="), "{}", text);
    assert!(text.contains("-S meta.point_size="), "{}", text);
    assert!(text.contains("to fill the frame   -S camera.distance=2.40"), "{}", text);
    assert!(text.contains("for crisp points    -S meta.point_size=0.0033"), "{}", text);
}

#[test]
fn set_overrides_say_what_they_replaced() {
    let scene = blank();
    let applied = [Applied {
        path: "meta.haze".into(),
        from: Some("0.5".into()),
        to: "0.9".into(),
    }];
    let text = report(&Subject::new(&scene, "s.toml").with_set(&applied));
    assert!(text.contains("set      1 override applied"), "{}", text);
    assert!(text.contains("meta.haze"), "{}", text);
    assert!(text.contains("was  0.5"), "{}", text);
}

#[test]
fn a_seed_is_the_way_back() {
    let scene = blank();
    let text = report(&Subject::new(&scene, "--random").with_seed(Some(42)));
    assert!(text.contains("reproduce with  --random --seed 42"), "{}", text);
}

#[test]
fn an_unmeasured_scene_names_what_expands() {
    let mut scene = blank();
    scene.measured = None;
    scene.transforms[1].contraction = 2 * UNIT;
    scene.transforms[1].name = Some("bough".to_string());
    let text = report(&Subject::new(&scene, "s"));
    assert!(text.contains("maps that expand:  [1] bough (2.000)"), "{}", text);
    assert!(text.contains("the chaos game does not converge — nothing to render"), "{}", text);
}

#[test]
fn a_misframed_scene_is_noted() {
    let mut scene = blank();
    scene.camera.distance = 10 * UNIT;
    scene.camera.focus = at(3.0, 4.0, 0.0);
    let text = report(&Subject::new(&scene, "s"));
    assert!(
        text.contains("shape   frames at distance 10.00, 4.2x the 2.40 that fills the frame"),
        "{}",
        text
    );
    assert!(
        text.contains("camera  focus is 5.00 from the centre, outside the 1.00 radius"),
        "{}",
        text
    );
    assert!(
        text.contains("render  point_size 0.0120 is over the 0.0033 crisp bound at 1080p"),
        "{}",
        text
    );
}

#[test]
fn a_zoom_that_is_on_is_laid_out() {
    let mut scene = blank();
    scene.zoom = Some(Zoom {
        spec: ZoomSpec { map: 0, radius: 3 * UNIT, levels: 14 * UNIT, octave_falloff: 0, edge_guard: UNIT },
        built: Ok(renorm(0)),
    });
    let text = report(&Subject::new(&scene, "s"));
    assert!(text.contains("zoom     on   map [0] #0"), "{}", text);
    assert!(text.contains("1.00 octaves/period, 0° twist"), "{}", text);
    assert!(text.contains("periods (14.0 octaves)"), "{}", text);
    assert!(text.contains("under infinite zoom"), "{}", text);
    assert!(scene_zoom(&scene).unwrap().is_some());

    scene.zoom = Some(Zoom {
        spec: ZoomSpec { map: 0, radius: 0, levels: 0, octave_falloff: 0, edge_guard: 0 },
        built: Err("map 0 uses variations".to_string()),
    });
    let text = report(&Subject::new(&scene, "s"));
    assert!(text.contains("zoom     BROKEN — map 0 uses variations"), "{}", text);
    assert_eq!(scene_zoom(&scene).unwrap_err(), "infinite zoom: map 0 uses variations");
}

#[test]
fn a_map_that_cannot_zoom_says_why() {
    let mut scene = blank();
    scene.zoom_trials = vec![
        Err("zoom map 0 uses variations (spherical); pick another".to_string()),
        Err("too flat".to_string()),
    ];
    let text = report(&Subject::new(&scene, "s"));
    assert!(text.contains("[0] 0             no: uses variations (spherical)"), "{}", text);
    assert!(text.contains("[1] 1             no: too flat"), "{}", text);
    assert!(text.contains("(none — infinite zoom needs"), "{}", text);
}

#[test]
fn a_flight_lists_its_keys() {
    let mut scene = blank();
    let key = |yaw: f64| PathKey {
        yaw: fixed(yaw),
        pitch: fixed(0.4),
        roll: 0,
        distance: 3 * UNIT,
        focus: at(0.0, 0.0, 0.0),
    };
    let mut path = CameraPath::new(vec![key(0.0), key(1.5708)], true);
    path.seconds = Some(8 * UNIT);
    scene.camera_path = Some(Flight {
        path,
        loops: Loops::Zoom(1),
        routes: vec![Route::Turns(0), Route::Turns(1)],
    });
    let text = report(&Subject::new(&scene, "s"));
    assert!(text.contains("path     2 keypoints, zoom loop, 1 period down per loop, 8.0s"), "{}", text);
    assert!(text.contains("[0]   0.0000   0.4000   0.0000      3.000   short"), "{}", text);
    assert!(text.contains("[1]   1.5708   0.4000   0.0000      3.000   +1 turn"), "{}", text);
    assert!(text.contains("camera path"), "{}", text);
    let _ = ZoomLoop { periods: 1 };
}

#[test]
fn messages_lose_what_the_list_has_said() {
    assert_eq!(strip_prefix("zoom map 3 uses variations (x); y"), "uses variations (x)");
    assert_eq!(strip_prefix("head; tail"), "head");
    assert_eq!(strip_prefix("whole"), "whole");
}

#[test]
fn views_are_matched_by_stem() {
    assert!(same_scene("scenes/my-scene.toml", "my scene"));
    assert!(!same_scene("scenes/other.toml", "my scene"));
    let mut scene = blank();
    scene.name = "My SCENE".to_string();
    let mut v = bare_view();
    v.scene = Some("scenes/my-scene.toml".to_string());
    let text = report(&Subject::new(&scene, "s").with_view("v.toml", &v));
    assert!(!text.contains("this view was framed against"), "{}", text);
    v.scene = Some("scenes/other.toml".to_string());
    let text = report(&Subject::new(&scene, "s").with_view("v.toml", &v));
    assert!(text.contains("this view was framed against scenes/other.toml"), "{}", text);
}

#[test]
fn scales_print_once_when_even() {
    assert_eq!(fmt_scale(at(0.6, 0.6, 0.6)), "0.600");
    assert_eq!(fmt_scale(at(0.05, 0.62, 0.05)), "[0.050, 0.620, 0.050]");
}

#[test]
fn counts_shrink_to_a_glance() {
    assert_eq!(magnitude(8_000_000), "8.0M");
    assert_eq!(magnitude(500_000), "500k");
    assert_eq!(magnitude(9_999), "9999");
    // What double precision holds of 1.05 is a shade over it, of 1.15 a shade
    // under.
    assert_eq!(magnitude(1_050_000), "1.1M");
    assert_eq!(magnitude(1_150_000), "1.1M");
    assert_eq!(magnitude(1_250_000), "1.2M");
    for n in [1_050_000usize, 1_150_000, 1_250_000, 1_350_000, 2_650_000, 123_450_000]
        .into_iter()
        .chain([9_007_199_254_740_993, 123_456_789_012_345_679, usize::MAX - 1024, usize::MAX])
    {
        assert_eq!(magnitude(n), format!("{:.1}M", n as f64 / 1e6));
    }
}

#[test]
fn colours_read_as_hex() {
    let c = Color { red: 13, green: 10, blue: 255, luminance: 0 };
    assert_eq!(hex(c), "#0d0aff");
    assert_eq!(
        hex_tinted(c, true),
        "\x1b[48;2;13;10;255m\x1b[38;2;255;255;255m#0d0aff\x1b[0m"
    );
    assert_eq!(hex_ramp(&vec![c, gray(0)]), "#0d0aff #000000");
    assert_eq!(swatch(&vec![gray(1)]), "\x1b[48;2;1;1;1m \x1b[0m");
}

#[test]
fn prose_wraps_behind_its_tag() {
    let lines = wrap("tag  ", 5, &"word ".repeat(20));
    assert_eq!(lines.len(), 2);
    assert!(lines[0].starts_with("tag  word"));
    assert!(lines[1].starts_with("     word"));
    assert!(lines.iter().all(|l| l.chars().count() <= 69));
    assert_eq!(spread("a", "b").chars().count(), 69);
}

#[test]
fn a_page_has_one_blank_line_between_sections() {
    let mut a = Section::new("one");
    a.two(Cell::new("x", "1".to_string()), Cell::new("long", "2".to_string()));
    a.pair("wide", "3".to_string());
    let mut b = Section::new("two");
    b.line("free text   ");
    let page = Report { sections: vec![a, b] }.to_text(false);
    assert_eq!(
        page,
        "one      x     1   long  2\n         wide  3\n\ntwo      free text\n"
    );
}

#[test]
fn a_framing_is_layered() {
    let scene = blank();
    let v = bare_view();
    let none = CameraOverride::default();
    assert_eq!(effective_camera(None, &scene, &none), scene.camera);
    assert_eq!(effective_camera(Some(&v), &scene, &none).yaw, fixed(1.25));
    let flight = OrbitCamera { yaw: 7, ..scene.camera };
    let over = CameraOverride { path_t: Some(flight), pitch: Some(9), ..none };
    let c = effective_camera(Some(&v), &scene, &over);
    assert_eq!((c.yaw, c.pitch), (7, 9));
    assert_eq!(effective_camera_folded(None, &scene, &none, Some((flight, 2))), (scene.camera, 0));
}

#[test]
fn a_pinned_band_does_not_survive_a_zoom() {
    let mut scene = blank();
    let mut v = bare_view();
    v.haze = None;
    let none = CameraOverride::default();
    let s = base_setup(Some(&v), &scene, false, &none, None);
    assert_eq!(s.haze.pinned, Some((3 * UNIT, fixed(4.5))));
    assert!(s.notice.is_none());
    scene.zoom = Some(Zoom {
        spec: ZoomSpec { map: 0, radius: 0, levels: 0, octave_falloff: 0, edge_guard: 0 },
        built: Ok(renorm(0)),
    });
    let s = base_setup(Some(&v), &scene, false, &none, Some((scene.camera, 3)));
    assert_eq!(s.haze.pinned, None);
    assert!(s.notice.is_some());
    assert_eq!(s.folded, 3);
    let s = base_setup(None, &blank(), true, &none, None);
    assert_eq!(s.haze.strength, HazeStrength::Brightness(400_000_000));
}

#[test]
fn a_camera_and_its_keypoint_are_one_framing() {
    let camera = OrbitCamera { yaw: 1, pitch: 2, roll: 3, distance: 4, focus: at(0.5, -1.0, 2.0) };
    let key = fracturize::path::PathKey::from_camera(&camera);
    assert_eq!((key.yaw, key.pitch, key.roll, key.distance), (1, 2, 3, 4));
    assert_eq!(key.to_camera(), camera);
}
