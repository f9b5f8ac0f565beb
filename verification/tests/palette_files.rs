//! Palettes in files: the table that a scene holds, and gradients from others.

use fracturize::offline::UNIT;
use fracturize::palette::def::{hex, parse_hex, tidy, ColorDef, PaletteDef, StopDef};
use fracturize::palette::import::{
    load, load_one, parse_flame, parse_ugr, pick, split_place, Format,
};
use fracturize::palette::{library, Body, Cosine, Ink, Interpolate, Palette, Reading, Stop};
use fracturize::quantity::Point;

fn fx(v: f64) -> i64 {
    (v * UNIT as f64).round() as i64
}

fn point(x: f64, y: f64, z: f64) -> Point {
    Point { x: fx(x), y: fx(y), z: fx(z) }
}

fn decode(v: u8) -> f64 {
    let s = v as f64 / 255.0;
    if s <= 0.040_45 { s / 12.92 } else { ((s + 0.055) / 1.055).powf(2.4) }
}

fn bare() -> PaletteDef {
    PaletteDef {
        name: None,
        enabled: None,
        cyclic: None,
        interpolate: None,
        rotate: None,
        reverse: None,
        stops: None,
        cosine: None,
        entries: None,
    }
}

fn number(v: &toml::Value) -> i64 {
    fx(v.as_float().or(v.as_integer().map(|i| i as f64)).unwrap())
}

fn three(v: &toml::Value) -> Point {
    let a = v.as_array().unwrap();
    Point { x: number(&a[0]), y: number(&a[1]), z: number(&a[2]) }
}

/// A table as the file format's own reader sees it.
fn read(t: &toml::Table) -> PaletteDef {
    PaletteDef {
        name: t.get("name").map(|v| v.as_str().unwrap().to_string()),
        enabled: t.get("enabled").map(|v| v.as_bool().unwrap()),
        cyclic: t.get("cyclic").map(|v| v.as_bool().unwrap()),
        interpolate: t.get("interpolate").map(|v| Interpolate::parse(v.as_str().unwrap()).unwrap()),
        rotate: t.get("rotate").map(number),
        reverse: t.get("reverse").map(|v| v.as_bool().unwrap()),
        stops: t.get("stops").map(|v| {
            v.as_array()
                .unwrap()
                .iter()
                .map(|s| StopDef {
                    at: number(&s["at"]),
                    color: ColorDef::Hex(s["color"].as_str().unwrap().to_string()),
                })
                .collect()
        }),
        cosine: t.get("cosine").map(|c| Cosine {
            a: three(&c["a"]),
            b: three(&c["b"]),
            c: three(&c["c"]),
            d: three(&c["d"]),
        }),
        entries: t.get("entries").map(|v| {
            v.as_array().unwrap().iter().map(|e| e.as_str().unwrap().to_string()).collect()
        }),
    }
}

fn parse(s: &str) -> toml::Table {
    s.parse().unwrap_or_else(|e| panic!("does not parse: {e}\n{s}"))
}

fn same_body(a: &Body, b: &Body) -> bool {
    match (a, b) {
        (Body::Stops(x), Body::Stops(y)) => x == y,
        (Body::Entries(x), Body::Entries(y)) => x == y,
        (Body::Cosine(x), Body::Cosine(y)) => x == y,
        _ => false,
    }
}

fn same(a: &Palette, b: &Palette) -> bool {
    a.name == b.name
        && same_body(&a.body, &b.body)
        && a.cyclic == b.cyclic
        && a.interpolate == b.interpolate
        && a.rotate == b.rotate
        && a.reverse == b.reverse
}

#[test]
fn hex_forms_parse() {
    assert_eq!(parse_hex("#ff8000").unwrap(), [255, 128, 0]);
    assert_eq!(parse_hex("ff8000").unwrap(), [255, 128, 0]);
    assert_eq!(parse_hex("#f80").unwrap(), [255, 136, 0]);
    assert!(parse_hex("#gg0000").is_err());
    assert!(parse_hex("#ff00").is_err());
}

#[test]
fn hex_is_written_in_lower_case_and_reads_back() {
    assert_eq!(hex(Ink::shown(255, 128, 0)), "#ff8000");
    for v in 0..=255u8 {
        assert_eq!(parse_hex(&hex(Ink::shown(v, 255 - v, 7))).unwrap(), [v, 255 - v, 7]);
    }
}

#[test]
fn hex_and_linear_stops_agree() {
    let hex = read(&parse(
        r##"stops = [{ at = 0.0, color = "#ff8000" }, { at = 0.5, color = "#0080ff" }]"##,
    ));
    let color = |r: u8, g: u8, b: u8| ColorDef::Linear {
        values: point(decode(r), decode(g), decode(b)),
        red: r,
        green: g,
        blue: b,
    };
    let mut lin = bare();
    lin.stops = Some(vec![
        StopDef { at: 0, color: color(255, 128, 0) },
        StopDef { at: fx(0.5), color: color(0, 128, 255) },
    ]);
    let (a, b) = (hex.resolve().unwrap(), lin.resolve().unwrap());
    let (a, b) = (a.stops().unwrap(), b.stops().unwrap());
    assert_eq!(a.len(), b.len());
    for (x, y) in a.iter().zip(b) {
        assert_eq!(x.at, y.at);
        assert_eq!(
            [x.color.red, x.color.green, x.color.blue],
            [y.color.red, y.color.green, y.color.blue]
        );
        let l = y.color.linear.unwrap();
        for (byte, v) in [(x.color.red, l.x), (x.color.green, l.y), (x.color.blue, l.z)] {
            assert!((decode(byte) - v as f64 / UNIT as f64).abs() < 1e-5);
        }
    }
}

#[test]
fn library_palettes_round_trip_by_name_alone() {
    for name in library::names() {
        let p = library::get(name).unwrap();
        let def = PaletteDef::from_palette(&p, true);
        assert!(def.stops.is_none(), "'{name}' should serialize as just a name");
        assert_eq!(def.name.as_deref(), Some(name));
        assert!(same(&def.resolve().unwrap(), &p));
    }
}

#[test]
fn an_edited_library_palette_carries_its_colours() {
    let mut p = library::get("ember").unwrap();
    let red = Ink::shown(255, 0, 0);
    match &mut p.body {
        Body::Stops(s) => s[0].color = red,
        _ => panic!("a library palette is made of stops"),
    }
    let def = PaletteDef::from_palette(&p, true);
    assert!(def.stops.is_some(), "edited stops must be written out");
    let back = def.resolve().unwrap();
    assert_eq!(back.stops().unwrap()[0].color, red);
    assert_eq!(back.name.as_deref(), Some("ember"), "provenance survives an edit");
}

fn cases() -> Vec<Palette> {
    let ocean = library::get("ocean").unwrap();
    let colors: Vec<Ink> = (0..9).map(|i| Ink::shown(20 * i, 255 - 20 * i, 77)).collect();
    vec![
        ocean.to_stops(&colors),
        Palette::from_cosine(Cosine {
            a: point(0.5, 0.5, 0.5),
            b: point(0.4, 0.4, 0.4),
            c: point(1.0, 1.0, 1.0),
            d: point(0.0, 0.1, 0.2),
        }),
        Palette::from_entries((0..256).map(|i| Ink::shown(i as u8, (255 - i) as u8, 128)).collect()),
    ]
}

#[test]
fn every_body_form_round_trips() {
    for mut p in cases() {
        p.cyclic = false;
        p.interpolate = Interpolate::Oklab;
        p.rotate = fx(0.25);
        p.reverse = true;
        let def = PaletteDef::from_palette(&p, true);
        let text = def.to_table();
        let back = read(&parse(&text)).resolve().unwrap();
        match (&p.body, &back.body) {
            (Body::Stops(a), Body::Stops(b)) => {
                assert_eq!(a.len(), b.len());
                for (x, y) in a.iter().zip(b) {
                    assert!((x.at - y.at).abs() <= fx(0.0001), "{text}");
                    assert_eq!(x.color, y.color);
                }
            }
            (a, b) => assert!(same_body(a, b), "{text}"),
        }
        assert_eq!(back.cyclic, false);
        assert_eq!(back.interpolate, Interpolate::Oklab);
        assert_eq!(back.reverse, true);
        assert_eq!(back.rotate, fx(0.25));
    }
}

#[test]
fn the_printed_fragment_pastes_back_into_a_scene() {
    let peacock = library::get("peacock").unwrap();
    let colors: Vec<Ink> = (0..6)
        .map(|i| match peacock.sample(fx(i as f64 / 6.0)) {
            Reading::Flat(c) => c,
            Reading::Mixed { from, .. } => from,
            _ => panic!("stops are flat or mixed"),
        })
        .collect();
    let cases = vec![
        peacock.to_stops(&colors),
        Palette::from_cosine(Cosine {
            a: point(0.5, 0.5, 0.5),
            b: point(0.45, 0.45, 0.45),
            c: point(1.0, 1.0, 1.0),
            d: point(0.1, 0.4, 0.7),
        }),
        library::get("ash").unwrap(),
    ];
    for p in cases {
        let text = PaletteDef::from_palette(&p, true).to_toml_fragment();
        assert!(text.starts_with("[palette]"), "{text}");
        assert!(!text.contains("\n[cosine]"), "sub-table leaked into the fragment:\n{text}");
        assert!(!text.contains("[[stops]]"), "sub-table leaked into the fragment:\n{text}");

        let whole = parse(&text);
        let back = read(whole["palette"].as_table().unwrap()).resolve().unwrap();
        assert_eq!(back.name, p.name);
        match (&p.body, &back.body) {
            (Body::Stops(a), Body::Stops(b)) => {
                assert_eq!(a.len(), b.len());
                for (x, y) in a.iter().zip(b) {
                    assert!((x.at - y.at).abs() <= fx(0.0001), "{text}");
                    assert_eq!(x.color, y.color, "{text}");
                }
            }
            (a, b) => assert!(same_body(a, b), "{text}"),
        }
    }
}

#[test]
fn a_fragment_is_laid_out_for_reading() {
    let mut p = Palette::from_stops(&vec![
        Stop { at: 0, color: Ink::shown(0, 0, 0) },
        Stop { at: fx(0.333_333_333), color: Ink::shown(255, 128, 0) },
    ]);
    p.name = Some("a \"b\"".to_string());
    p.rotate = fx(0.5);
    let text = PaletteDef::from_palette(&p, false).to_toml_fragment();
    let back = parse(&text);
    let t = back["palette"].as_table().unwrap();
    assert_eq!(t["name"].as_str(), Some("a \"b\""), "a name is quoted: {text}");
    assert_eq!(t["enabled"].as_bool(), Some(false));
    assert_eq!(t["rotate"].as_float(), Some(0.5));
    assert!(text.contains("\n    { at = 0.0, color = \"#000000\" }"), "{text}");
    assert!(text.contains("\n    { at = 0.3333, color = \"#ff8000\" }"), "{text}");
}

#[test]
fn numbers_are_saved_to_four_places() {
    assert_eq!(tidy(fx(0.300_000_011)), fx(0.3));
    assert_eq!(tidy(fx(-0.000_05)), fx(-0.000_1));
    assert_eq!(tidy(fx(0.000_049)), 0);
    assert_eq!(tidy(tidy(123_456_789)), tidy(123_456_789));
}

#[test]
fn enabled_false_survives_a_round_trip() {
    let p = library::get("ash").unwrap();
    let def = PaletteDef::from_palette(&p, false);
    assert_eq!(def.enabled, Some(false));
    let text = def.to_table();
    assert_eq!(read(&parse(&text)).enabled, Some(false));
    assert!(PaletteDef::from_palette(&p, true).enabled.is_none());
}

fn refusal(d: &PaletteDef) -> String {
    match d.resolve() {
        Ok(_) => panic!("a palette came of it"),
        Err(e) => e,
    }
}

#[test]
fn unknown_names_and_bad_bodies_are_errors() {
    let mut def = bare();
    def.name = Some("nope".to_string());
    assert!(refusal(&def).contains("unknown palette"));

    assert!(refusal(&bare()).contains("needs"));

    let mut short = bare();
    short.entries = Some(vec!["#000000".to_string(); 3]);
    assert!(refusal(&short).contains("256"));

    let mut bad = bare();
    bad.stops = Some(vec![StopDef { at: 0, color: ColorDef::Hex("#nope".to_string()) }]);
    assert!(bad.resolve().is_err());

    let mut gray = bare();
    gray.entries = Some(vec!["#zzzzzz".to_string(); 256]);
    assert!(gray.resolve().is_err());
}

fn shown(i: Ink) -> [u8; 3] {
    assert!(i.linear.is_none(), "an imported colour is what a display shows");
    [i.red, i.green, i.blue]
}

#[test]
fn ugr_reads_names_colours_and_the_400_index_scale() {
    // color= is BGR-packed: 0xFF0000 is *blue*, not red.
    let text = r#"
twilight {
gradient:
 title="twilight" smooth=no
 index=0 color=0
 index=200 color=16711680
 index=399 color=255
opacity:
 index=0 opacity=255
}
dawn {
gradient:
 index=0 color=65280
 index=399 color=16777215
}
"#;
    let found = parse_ugr(text);
    assert_eq!(found.len(), 2);
    assert_eq!(found[0].name.as_deref(), Some("twilight"));
    assert_eq!(found[1].name.as_deref(), Some("dawn"));

    let stops = found[0].stops().unwrap();
    assert_eq!(stops.len(), 3);
    assert_eq!(shown(stops[0].color), [0, 0, 0]);
    assert_eq!(shown(stops[1].color), [0, 0, 255], "0xFF0000 is blue in BGR");
    assert_eq!(shown(stops[2].color), [255, 0, 0], "0x0000FF is red in BGR");
    // 0..399 indexing, not 0..255
    assert!((stops[1].at - fx(0.5)).abs() < fx(0.01), "index 200 of 399 should land mid-gradient");
    assert!(stops[2].at > fx(0.99));

    // Green through the middle of the second one
    assert_eq!(shown(found[1].stops().unwrap()[0].color), [0, 255, 0]);
}

#[test]
fn ugr_ignores_the_opacity_block() {
    let text = "g {\ngradient:\n index=0 color=0\n index=255 color=16777215\nopacity:\n index=0 opacity=255\n index=128 opacity=0\n}";
    let found = parse_ugr(text);
    assert_eq!(found[0].stops().unwrap().len(), 2, "opacity indices must not become stops");
}

#[test]
fn flame_palette_blob_decodes() {
    // 256 entries, RGB, ramping red 0..255 with fixed green/blue.
    let hex: String = (0..256).map(|i| format!("{i:02X}8040")).collect();
    let text = format!("<flame><palette count=\"256\" format=\"RGB\">{hex}</palette></flame>");
    let found = parse_flame(&text, "scene");
    assert_eq!(found.len(), 1);
    assert_eq!(found[0].name.as_deref(), Some("scene"));
    let Body::Entries(e) = &found[0].body else { panic!("expected verbatim entries") };
    assert_eq!(shown(e[0]), [0, 128, 64]);
    assert_eq!(shown(e[255]), [255, 128, 64]);
}

#[test]
fn flam3_style_eight_digit_entries_drop_the_pad_byte() {
    let hex: String = (0..256).map(|i| format!("00{i:02X}8040")).collect();
    let found = parse_flame(&format!("<palette data=\"{hex}\" name=\"lib\"/>"), "x");
    let Body::Entries(e) = &found[0].body else { panic!("expected verbatim entries") };
    assert_eq!(found[0].name.as_deref(), Some("lib"));
    assert_eq!(shown(e[7]), [7, 128, 64]);
}

#[test]
fn flame_per_colour_elements_decode() {
    let text = "<flame><color index=\"0\" rgb=\"0 0 0\"/><color index=\"255\" rgb=\"255 128 0\"/></flame>";
    let found = parse_flame(text, "old");
    assert_eq!(found.len(), 1);
    let stops = found[0].stops().unwrap();
    assert_eq!(shown(stops[1].color), [255, 128, 0]);
}

#[test]
fn palette_toml_parses_wrapped_and_bare() {
    let bare = r#"name = "ember""#;
    let wrapped = format!("[palette]\n{bare}\n");
    let a = read(&parse(bare)).resolve().unwrap();
    let b = read(parse(&wrapped)["palette"].as_table().unwrap()).resolve().unwrap();
    assert!(same(&a, &b));
    assert!(same(&a, &library::get("ember").unwrap()));
}

const TWO: &str = "twilight {\ngradient:\n index=0 color=0\n index=399 color=16711680\n}\n\
     dawn {\ngradient:\n index=0 color=0\n index=399 color=255\n}\n";

fn no_table() -> Result<PaletteDef, String> {
    Err("not a table".to_string())
}

fn error_of<T>(r: Result<T, String>) -> String {
    match r {
        Ok(_) => panic!("it was accepted"),
        Err(e) => e,
    }
}

#[test]
fn load_one_selects_by_fragment() {
    let path = "/tmp/import/gradients.ugr";
    let first = load_one(path, TWO, &no_table()).unwrap();
    assert_eq!(first.name.as_deref(), Some("twilight"));

    let picked = load_one(&format!("{}#dawn", path), TWO, &no_table()).unwrap();
    assert_eq!(picked.name.as_deref(), Some("dawn"));

    let err = error_of(load_one(&format!("{}#nope", path), TWO, &no_table()));
    assert!(err.contains("twilight") && err.contains("dawn"), "error lists what is there: {err}");
}

#[test]
fn a_place_is_cut_at_its_last_hash() {
    assert_eq!(split_place("a.ugr"), ("a.ugr".to_string(), None));
    assert_eq!(split_place("a.ugr#dawn"), ("a.ugr".to_string(), Some("dawn".to_string())));
    let found = parse_ugr(TWO);
    assert_eq!(pick("p", Some("DAWN"), found).unwrap().name.as_deref(), Some("dawn"));
}

#[test]
fn a_file_is_known_by_its_name_or_its_beginning() {
    assert_eq!(fracturize::palette::import::format("a.ugr", ""), Format::Packed);
    assert_eq!(fracturize::palette::import::format("a.flame", ""), Format::Markup);
    assert_eq!(fracturize::palette::import::format("a.toml", ""), Format::Table);
    assert!(error_of(load("a.ugr", "", &no_table())).contains("a.ugr"));
    let table = Ok(read(&parse(r#"name = "ash""#)));
    let found = load("a.toml", "name = \"ash\"", &table).unwrap();
    assert_eq!(found.len(), 1);
    assert!(same(&found[0], &library::get("ash").unwrap()));
    assert!(error_of(load("a.toml", "x", &no_table())).contains("not a table"));
}

/// Six digits or three, and nothing else.
#[test]
fn only_digits_are_a_colour() {
    for s in ["", "#", "+f+f+f", "+ff", "#-1-2-3", "ff 000", "#f\u{e9}0", "\u{e9}\u{e9}\u{e9}", "12345", "1234567"] {
        let e = parse_hex(s).err().unwrap_or_else(|| panic!("{s:?} is no colour"));
        assert!(e.contains(s), "{e}");
    }
    for (short, long) in [("#abc", "#aabbcc"), ("09F", "0099ff"), ("##fFf", "FFFFFF")] {
        let want = parse_hex(long).unwrap();
        assert_eq!(parse_hex(short).unwrap(), want);
        assert_eq!(parse_hex(&short.to_uppercase()).unwrap(), want);
        assert_eq!(parse_hex(&format!("  {short}\t")).unwrap(), want);
        assert_eq!(parse_hex(short.trim_start_matches('#')).unwrap(), want);
    }
}

/// Palettes that differ are written differently, however little they differ
/// by.
#[test]
fn written_palettes_are_told_apart() {
    let mut texts: Vec<String> = Vec::new();
    for name in library::names() {
        let p = library::get(name).unwrap();
        texts.push(PaletteDef::from_palette(&p, true).to_table());
        texts.push(PaletteDef::from_palette(&p, false).to_table());
        for rotate in [0.1, 0.11, 0.101] {
            let mut turned = library::get(name).unwrap();
            turned.rotate = fx(rotate);
            texts.push(PaletteDef::from_palette(&turned, true).to_table());
            turned.reverse = true;
            texts.push(PaletteDef::from_palette(&turned, true).to_table());
        }
    }
    let written = texts.len();
    texts.sort();
    texts.dedup();
    assert_eq!(texts.len(), written);
}
