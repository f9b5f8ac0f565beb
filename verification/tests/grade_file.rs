use fracturize::grade_file::{GradeBuffer, ReadError};

fn sample() -> GradeBuffer {
    GradeBuffer {
        width: 3,
        height: 2,
        samples: "12340000000".to_string(),
        screen_height: "2160".to_string(),
        background: ("0.01".to_string(), "0.02".to_string(), "0.03".to_string()),
        transparent: false,
        exposure: "1.5".to_string(),
        gamma: "2.5".to_string(),
        gamma_threshold: "0.35".to_string(),
        vibrancy: "0.8".to_string(),
        pixels: (0..24).map(|i| (i as f32 * 0.125).to_bits()).collect(),
    }
}

fn same(a: &GradeBuffer, b: &GradeBuffer) -> bool {
    a.width == b.width
        && a.height == b.height
        && a.samples == b.samples
        && a.screen_height == b.screen_height
        && a.background == b.background
        && a.transparent == b.transparent
        && a.exposure == b.exposure
        && a.gamma == b.gamma
        && a.gamma_threshold == b.gamma_threshold
        && a.vibrancy == b.vibrancy
        && a.pixels == b.pixels
}

#[test]
fn a_grade_buffer_round_trips() {
    let b = sample();
    let raw = b.write(None).unwrap();
    let back = GradeBuffer::read(&raw, "b.fgrade").unwrap();
    assert!(same(&back, &b));
}

/// `samples` divides the exposure, so a rounded round-trip would re-grade
/// at a subtly different brightness than the render it came from.
#[test]
fn the_sample_count_survives_exactly() {
    let mut b = sample();
    let samples = 4_123_456_789_012.0f64 + 0.5;
    b.samples = samples.to_string();
    let raw = b.write(None).unwrap();
    let back = GradeBuffer::read(&raw, "b.fgrade").unwrap();
    assert_eq!(back.samples.parse::<f64>().unwrap(), samples);
}

/// The header is meant to be readable with `head`, which is half the
/// reason it is TOML and comes first.
#[test]
fn the_header_leads_the_file_and_says_what_it_is() {
    let b = sample();
    let raw = b.write(None).unwrap();
    let head = String::from_utf8_lossy(&raw[..2000.min(raw.len())]).to_string();
    assert!(head.starts_with("fracturize-grade 1\n"));
    assert!(head.contains("[grade_buffer]"));
    assert!(head.contains("--retonemap"));
}

#[test]
fn a_file_that_is_not_one_is_refused_by_name() {
    let e = GradeBuffer::read(b"\x89PNG\r\n\x1a\n and then some", "bogus").err().unwrap();
    assert!(e.contains("not a fracturize grade buffer"), "{}", e);
}

/// A truncated file must say so rather than hand back a short buffer that
/// would tonemap into a garbled image.
#[test]
fn a_truncated_file_is_caught() {
    let b = sample();
    let mut raw = b.write(None).unwrap();
    raw.truncate(raw.len() - 8);
    let e = GradeBuffer::read(&raw, "truncated").err().unwrap();
    assert!(e.contains("but the file has"), "{}", e);
}

#[test]
fn the_conventional_path_sits_beside_the_png() {
    assert_eq!(GradeBuffer::path_for("renders/a.png"), "renders/a.fgrade");
}

/// Every way a file can be refused, by one that is.
#[test]
fn each_refusal_has_its_file() {
    let refused = |data: &[u8]| GradeBuffer::parse(data).err().unwrap();
    assert!(matches!(refused(b""), ReadError::NotAGradeBuffer));
    assert!(matches!(refused(b"fracturize-grade 1\n"), ReadError::TruncatedLength));
    assert!(matches!(refused(b"fracturize-grade 1\nxyz\n"), ReadError::UnreadableLength));
    assert!(matches!(
        refused(b"fracturize-grade 1\n99999999\n"),
        ReadError::HeaderClaims(99_999_999)
    ));
    assert!(matches!(refused(b"fracturize-grade 1\n50\nabc"), ReadError::TruncatedHeader));
    assert!(matches!(refused(b"fracturize-grade 1\n2\n\xff\xfe"), ReadError::NotUtf8));
    assert!(matches!(refused(b"fracturize-grade 1\n3\na=1"), ReadError::Missing(_)));
}

#[test]
fn a_record_rides_along() {
    let b = sample();
    let raw = b.write(Some("[render]\npoints = 5\n")).unwrap();
    let head = String::from_utf8_lossy(&raw[..raw.len() - 96]).to_string();
    assert!(head.contains("[render]\npoints = 5"));
    let back = GradeBuffer::read(&raw, "b.fgrade").unwrap();
    assert!(same(&back, &b));
}

/// Wherever a file is cut, it is refused.
#[test]
fn a_file_cut_anywhere_is_refused() {
    let raw = sample().write(Some("seed = 7\n")).unwrap();
    assert!(GradeBuffer::parse(&raw).is_ok());
    for k in 0..raw.len() {
        assert!(GradeBuffer::parse(&raw[..k]).is_err(), "{k} of {} bytes read", raw.len());
    }
}

/// A width is read as a double and then cut to a whole number.
#[test]
fn a_size_is_read_as_a_double() {
    let raw = sample().write(None).unwrap();
    let at = raw.windows(9).position(|w| w == b"width = 3").unwrap();
    let from = raw.windows(1).skip(19).position(|w| w == b"\n").unwrap() + 19;
    let length: usize = std::str::from_utf8(&raw[19..from]).unwrap().trim().parse().unwrap();
    let more = b"width = 2.9999999999999999999";
    let mut other = b"fracturize-grade 1\n".to_vec();
    other.extend((length + more.len() - 9).to_string().as_bytes());
    other.extend(&raw[from..at]);
    other.extend(more);
    other.extend(&raw[at + 9..]);
    assert_eq!(GradeBuffer::parse(&other).ok().unwrap().width, 3);
}

/// A file that begins as another kind does is refused as no grade buffer.
#[test]
fn another_kind_of_file_is_refused() {
    let mut raw = sample().write(None).unwrap();
    raw[0] = b'F';
    assert!(matches!(GradeBuffer::parse(&raw).err().unwrap(), ReadError::NotAGradeBuffer));
}
