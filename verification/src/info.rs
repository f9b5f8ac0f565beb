//! The report on a scene: everything about it, in text, without rendering it.
//!
//! Importance goes by position. What is this, is it sound and what to do
//! next, and then the detail. Every row prints every time, since a row that
//! vanishes when it is unset is a row one cannot learn to look for.

use crate::camera;
use crate::camera::{effective_camera_folded, CameraOverride, OrbitCamera};
use crate::filename;
use crate::layout;
use crate::layout::{
    spread, wrap, Cell, Report, Section, SectionModel, Span, SpanModel, GUTTER, ROOM,
};
use crate::num;
use crate::offline::UNIT;
use crate::path::MAX_SEGMENTS;
use crate::quantity;
use crate::quantity::{
    amount, angle, color_swatch, count, hex, length, magnitude, optional, point, push_degrees,
    push_fixed, push_plain, size, snap, swatch, tint, word, Color, Point,
};
use crate::scene;
use crate::scene::{
    name_of, Applied, ColorMode, Flight, Loops, Measured, Renorm, Route, SavedView, Scene, Transform,
};
use crate::text;
use vstd::prelude::*;

verus! {

/// What a report is about: the scene, and whatever was layered over it.
pub struct Subject<'a> {
    pub scene: &'a Scene,
    /// Where the scene came from.
    pub source: &'a str,
    /// A view, with the path it was read from.
    pub view: Option<(&'a str, &'a SavedView)>,
    /// The camera flags.
    pub camera: CameraOverride,
    /// Overrides that were applied, and what each displaced.
    pub set: &'a [Applied],
    /// The seed a random scene was rolled from.
    pub seed: Option<u64>,
    /// Whether any escape code is written anywhere in the report.
    pub color: bool,
    /// What the scene's zoom makes of the framing, and how many periods that
    /// moved it.
    pub fold: Option<(OrbitCamera, i32)>,
}

/// A coordinate whose differences can be squared and added.
pub open spec fn is_near(p: Point) -> bool {
    &&& -4_000_000_000_000_000_000 <= p.x <= 4_000_000_000_000_000_000
    &&& -4_000_000_000_000_000_000 <= p.y <= 4_000_000_000_000_000_000
    &&& -4_000_000_000_000_000_000 <= p.z <= 4_000_000_000_000_000_000
}

impl<'a> Subject<'a> {
    /// The view alone.
    pub open spec fn view_of(self) -> Option<&'a SavedView> {
        match self.view {
            Some(v) => Some(v.1),
            None => None,
        }
    }

    /// The camera that would render.
    pub open spec fn framing(self) -> OrbitCamera {
        match self.fold {
            Some(f) if camera::zooms(*self.scene) => f.0,
            _ => self.camera.applied_to(
                camera::base_camera(self.view_of(), *self.scene, self.camera),
            ),
        }
    }

    /// Numbers small enough to be measured against each other.
    pub open spec fn is_measurable(self) -> bool {
        &&& is_near(self.framing().focus)
        &&& self.scene.measured matches Some(m) ==> is_near(m.center)
        &&& self.scene.camera_path matches Some(f) ==> {
            &&& f.path.keys@.len() <= MAX_SEGMENTS
            &&& forall|i: int|
                0 <= i < f.path.keys@.len() ==> is_near((#[trigger] f.path.keys@[i]).focus)
        }
        &&& self.scene.zoom_trials@.len() == self.scene.transforms@.len()
        &&& self.scene.transforms@.len() <= 0x1_0000_0000
    }

    /// A report on a scene and nothing else.
    pub fn new(scene: &'a Scene, source: &'a str) -> (s: Self)
        ensures
            s.scene == scene,
            s.source == source,
            s.view is None,
            s.camera.says_nothing(),
            s.set@.len() == 0,
            s.seed is None,
            !s.color,
            s.fold is None,
    {
        let set: &'a [Applied] = &[];
        Subject {
            scene,
            source,
            view: None,
            camera: CameraOverride::default(),
            set,
            seed: None,
            color: false,
            fold: None,
        }
    }

    /// The same, with a view over the scene.
    pub fn with_view(self, path: &'a str, view: &'a SavedView) -> (s: Self)
        ensures
            s == (Subject { view: Some((path, view)), ..self }),
    {
        Subject { view: Some((path, view)), ..self }
    }

    /// The same, with camera flags.
    pub fn with_camera(self, camera: CameraOverride) -> (s: Self)
        ensures
            s == (Subject { camera, ..self }),
    {
        Subject { camera, ..self }
    }

    /// The same, with overrides that were applied.
    pub fn with_set(self, set: &'a [Applied]) -> (s: Self)
        ensures
            s == (Subject { set, ..self }),
    {
        Subject { set, ..self }
    }

    /// The same, with the seed it was rolled from.
    pub fn with_seed(self, seed: Option<u64>) -> (s: Self)
        ensures
            s == (Subject { seed, ..self }),
    {
        Subject { seed, ..self }
    }

    /// The same, in colour or not.
    pub fn with_color(self, color: bool) -> (s: Self)
        ensures
            s == (Subject { color, ..self }),
    {
        Subject { color, ..self }
    }

    /// The same, with what the zoom makes of the framing.
    pub fn with_fold(self, fold: (OrbitCamera, i32)) -> (s: Self)
        ensures
            s == (Subject { fold: Some(fold), ..self }),
    {
        Subject { fold: Some(fold), ..self }
    }
}

/// What a note reads: the section it is about, and the finding.
pub struct NoteModel {
    pub tag: Seq<char>,
    pub text: Seq<char>,
}

/// One note.
pub open spec fn note(tag: Seq<char>, text: Seq<char>) -> Seq<NoteModel> {
    seq![NoteModel { tag, text }]
}

/// No notes.
pub open spec fn no_notes() -> Seq<NoteModel> {
    Seq::empty()
}

/// A finding, tagged with the section it is about.
pub struct Note {
    pub tag: &'static str,
    pub text: String,
}

impl View for Note {
    type V = NoteModel;

    open spec fn view(&self) -> NoteModel {
        NoteModel { tag: self.tag@, text: self.text@ }
    }
}

/// The findings of a report, collected as it is built and printed second.
pub struct Notes {
    pub list: Vec<Note>,
}

impl View for Notes {
    type V = Seq<NoteModel>;

    open spec fn view(&self) -> Seq<NoteModel> {
        Seq::new(self.list@.len(), |i: int| self.list@[i]@)
    }
}

impl Notes {
    /// No findings yet.
    pub fn new() -> (n: Notes)
        ensures
            n@ == no_notes(),
    {
        let n = Notes { list: Vec::new() };
        assert(n@ =~= no_notes());
        n
    }

    /// One more finding.
    pub fn add(&mut self, tag: &'static str, text: String)
        ensures
            final(self)@ == old(self)@ + note(tag@, text@),
    {
        let n = Note { tag, text };
        let ghost model = n@;
        self.list.push(n);
        assert(self@ =~= old(self)@.push(model));
        assert(old(self)@.push(model) =~= old(self)@ + note(tag@, text@));
    }

    /// One more finding, in fixed words.
    pub fn say(&mut self, tag: &'static str, text: &str)
        ensures
            final(self)@ == old(self)@ + note(tag@, text@),
    {
        let mut t = String::new();
        t.append(text);
        assert(t@ =~= text@);
        self.add(tag, t);
    }
}

// ---- what am I looking at ------------------------------------------------

/// Whether an author is worth naming.
pub open spec fn is_credited(author: Seq<char>) -> bool {
    author.len() > 0 && author != "Unknown"@
}

/// Whether a scene has a path that can be flown.
pub open spec fn has_flight(scene: Scene) -> bool {
    scene.camera_path matches Some(f) && f.path.is_playable()
}

/// The facts of a scene's second line.
pub open spec fn facts(scene: Scene) -> Seq<Seq<char>> {
    (if is_credited(scene.author@) {
        seq!["by "@ + scene.author@]
    } else {
        Seq::empty()
    }) + seq![
        text::decimal(scene.transforms@.len()) + " maps"@,
        scene.color_mode.name_text() + " colour"@,
        if scene.zoom is Some {
            "zoom on"@
        } else {
            "no zoom"@
        },
        quantity::magnitude_text(scene.point_count as nat) + " points"@,
    ] + (if has_flight(scene) {
        seq!["camera path"@]
    } else {
        Seq::empty()
    })
}

/// The section on what the scene is.
#[verifier::opaque]
pub open spec fn scene_section_of(subject: Subject) -> SectionModel {
    let s = layout::section("scene"@).text(
        layout::spread_text(subject.scene.name@, subject.source@),
    ).texts(layout::wrapped(""@, 0, text::joined(facts(*subject.scene), ", "@)));
    match subject.seed {
        Some(seed) => s.text("reproduce with  --random --seed "@ + text::decimal(seed as nat)),
        None => s,
    }
}

fn scene_facts(scene: &Scene) -> (parts: Vec<String>)
    ensures
        text::views(parts@) == facts(*scene),
{
    let mut parts: Vec<String> = Vec::new();
    let author = scene.author.as_str();
    if text::char_count(author) > 0 && !text::same(author, "Unknown") {
        let mut by = text::owned("by ");
        by.append(author);
        assert(by@ =~= "by "@ + scene.author@);
        parts.push(by);
    }
    let mut maps = text::decimal_string(scene.transforms.len() as u128);
    maps.append(" maps");
    parts.push(maps);
    let mut mode = text::owned(scene.color_mode.name());
    mode.append(" colour");
    parts.push(mode);
    parts.push(
        text::owned(
            if scene.zoom.is_some() {
                "zoom on"
            } else {
                "no zoom"
            },
        ),
    );
    let mut points = magnitude(scene.point_count);
    points.append(" points");
    parts.push(points);
    let flown = match &scene.camera_path {
        Some(f) => f.path.playable(),
        None => false,
    };
    if flown {
        parts.push(text::owned("camera path"));
    }
    assert(text::views(parts@) =~= facts(*scene));
    parts
}

/// What am I looking at. Two lines, because that is how long a reader who is
/// going to stop reading will keep going.
pub fn scene_section(subject: &Subject) -> (s: Section)
    ensures
        s@ == scene_section_of(*subject),
{
    reveal(scene_section_of);
    let scene = subject.scene;
    let mut s = Section::new("scene");
    s.text(spread(scene.name.as_str(), subject.source));
    let parts = scene_facts(scene);
    let line = text::join(&parts, ", ");
    s.texts(wrap("", 0, line.as_str()));
    if let Some(seed) = subject.seed {
        let mut t = text::owned("reproduce with  --random --seed ");
        text::push_decimal(&mut t, seed as u128);
        s.text(t);
    }
    s
}

// ---- is it sound ---------------------------------------------------------

/// The longest of the tags, or four where there are none.
pub open spec fn widest_tag(notes: Seq<NoteModel>) -> nat
    decreases notes.len(),
{
    if notes.len() == 0 {
        0
    } else {
        let before = widest_tag(notes.drop_last());
        if before < notes.last().tag.len() {
            notes.last().tag.len()
        } else {
            before
        }
    }
}

/// A section with the first `n` notes after its rows, each behind its tag.
pub open spec fn with_notes(s: SectionModel, notes: Seq<NoteModel>, width: nat, n: nat) -> SectionModel
    decreases n,
{
    if n == 0 {
        s
    } else {
        with_notes(s, notes, width, (n - 1) as nat).texts(
            layout::wrapped(
                text::padded_right(notes[n - 1].tag, width),
                width,
                notes[n - 1].text,
            ),
        )
    }
}

/// The section of notes: how many there are, or that there are none.
#[verifier::opaque]
pub open spec fn notes_section_of(notes: Seq<NoteModel>) -> SectionModel {
    let s = layout::section("notes"@);
    if notes.len() == 0 {
        s.text("none"@)
    } else {
        with_notes(
            s.text(text::decimal(notes.len())),
            notes,
            widest_tag(notes) + 2,
            notes.len(),
        )
    }
}

/// Is it sound, and what should I do about it. One block, second, with a count
/// on the first line so that "nothing is wrong" is a single cheap signal.
pub fn notes_section(notes: &Notes) -> (s: Section)
    requires
        widest_tag(notes@) <= ROOM,
    ensures
        s@ == notes_section_of(notes@),
{
    reveal(notes_section_of);
    let mut s = Section::new("notes");
    let n: usize = notes.list.len();
    if n == 0 {
        s.line("none");
        return s;
    }
    let mut widest: usize = 0;
    let mut i: usize = 0;
    assert(notes@.take(0) =~= Seq::empty());
    while i < n
        invariant
            i <= n,
            n == notes.list@.len(),
            widest == widest_tag(notes@.take(i as int)),
        decreases n - i,
    {
        assert(notes@.take(i + 1).drop_last() =~= notes@.take(i as int));
        assert(notes@.take(i + 1).last() == notes.list@[i as int]@);
        let w: usize = text::char_count(notes.list[i].tag);
        if widest < w {
            widest = w;
        }
        i += 1;
    }
    assert(notes@.take(i as int) =~= notes@);
    let width: usize = widest + 2;
    s.text(text::decimal_string(n as u128));
    let ghost head = s@;
    let mut k: usize = 0;
    while k < n
        invariant
            k <= n,
            n == notes.list@.len(),
            s@ == with_notes(head, notes@, width as nat, k as nat),
        decreases n - k,
    {
        let mut tag = String::new();
        text::push_padded_right(&mut tag, notes.list[k].tag, width);
        assert(tag@ =~= text::padded_right(notes@[k as int].tag, width as nat));
        s.texts(wrap(tag.as_str(), width, notes.list[k].text.as_str()));
        k += 1;
    }
    s
}

// ---- what was overridden -------------------------------------------------

/// The widest new value.
pub open spec fn widest_value(set: Seq<Applied>) -> nat
    decreases set.len(),
{
    if set.len() == 0 {
        0
    } else {
        let before = widest_value(set.drop_last());
        if before < set.last().to@.len() {
            set.last().to@.len()
        } else {
            before
        }
    }
}

/// A section with the first `n` overrides after its rows.
pub open spec fn with_overrides(s: SectionModel, set: Seq<Applied>, width: nat, n: nat) -> SectionModel
    decreases n,
{
    if n == 0 {
        s
    } else {
        let a = set[n - 1];
        with_overrides(s, set, width, (n - 1) as nat).two(
            layout::labelled(a.path@, text::padded_left(a.to@, width)),
            layout::labelled(
                "was"@,
                match a.from {
                    Some(f) => f@,
                    None => "(unset)"@,
                },
            ),
        )
    }
}

/// The section on what was overridden.
#[verifier::opaque]
pub open spec fn set_section_of(subject: Subject) -> SectionModel {
    with_overrides(
        layout::section("set"@).text(
            text::decimal(subject.set@.len()) + " override"@ + (if subject.set@.len() == 1 {
                ""@
            } else {
                "s"@
            }) + " applied to "@ + subject.source@,
        ),
        subject.set@,
        widest_value(subject.set@),
        subject.set@.len(),
    )
}

/// What the command line moved, and what it moved it from.
pub fn set_section(subject: &Subject) -> (s: Section)
    ensures
        s@ == set_section_of(*subject),
{
    reveal(set_section_of);
    let set = subject.set;
    let n: usize = set.len();
    let mut s = Section::new("set");
    let mut t = text::decimal_string(n as u128);
    t.append(" override");
    if n == 1 {
        t.append("");
    } else {
        t.append("s");
    }
    t.append(" applied to ");
    t.append(subject.source);
    s.text(t);
    let ghost head = s@;
    let mut width: usize = 0;
    let mut i: usize = 0;
    assert(set@.take(0) =~= Seq::empty());
    while i < n
        invariant
            i <= n,
            n == set@.len(),
            width == widest_value(set@.take(i as int)),
        decreases n - i,
    {
        assert(set@.take(i + 1).drop_last() =~= set@.take(i as int));
        let w: usize = text::char_count(set[i].to.as_str());
        if width < w {
            width = w;
        }
        i += 1;
    }
    assert(set@.take(i as int) =~= set@);
    let mut k: usize = 0;
    while k < n
        invariant
            k <= n,
            n == set@.len(),
            s@ == with_overrides(head, set@, width as nat, k as nat),
        decreases n - k,
    {
        let a = &set[k];
        let mut to = String::new();
        text::push_padded_left(&mut to, a.to.as_str(), width);
        assert(to@ =~= text::padded_left(a.to@, width as nat));
        let from = match &a.from {
            Some(f) => text::owned(f.as_str()),
            None => text::owned("(unset)"),
        };
        s.two(Cell::new(a.path.as_str(), to), Cell::new("was", from));
        k += 1;
    }
    s
}

// ---- what a view sets ----------------------------------------------------

/// `str::to_lowercase`: what a text reads in lower case. Unicode's rules say,
/// and they run to pages; the result depends on the text alone.
pub uninterp spec fn lowercase(s: Seq<char>) -> Seq<char>;

/// A text in lower case, by `str::to_lowercase`.
#[verifier::external_body]
fn to_lowercase(s: &str) -> (r: String)
    ensures
        r@ == lowercase(s@),
{
    s.to_lowercase()
}

/// Whether the scene that a view names is the one whose name in lower case is
/// `lowered`: the stems of the two as file names, with dashes for spaces, are
/// the same.
pub open spec fn names_scene(named: Seq<char>, lowered: Seq<char>) -> bool {
    filename::file_stem(named) == filename::file_stem(text::replaced(lowered, ' ', '-'))
}

/// Test whether a view names a scene, by the scene's name in lower case.
pub fn same_scene(named: &str, lowered: &str) -> (b: bool)
    ensures
        b == names_scene(named@, lowered@),
{
    let dashed = text::replace(lowered, ' ', '-');
    match (filename::stem_of(named), filename::stem_of(dashed.as_str())) {
        (Some(a), Some(b)) => text::same(a.as_str(), b.as_str()),
        (None, None) => true,
        _ => false,
    }
}

/// The amount of haze in a view: clamped to a whole, or recovered from the
/// shader values of an old one.
pub open spec fn view_haze(v: SavedView) -> int {
    match v.haze {
        Some(a) => if a < 0 {
            0
        } else if a > UNIT {
            UNIT as int
        } else {
            a as int
        },
        None => v.haze_recovered as int,
    }
}

/// The rows of a view's framing.
pub open spec fn view_framing_of(path: Seq<char>, v: SavedView) -> SectionModel {
    let s = layout::section("view"@).text(path).pair(
        "of scene"@,
        match v.scene {
            Some(n) => n@,
            None => "unset"@,
        },
    ).pair("yaw"@, quantity::angle_text(v.rotation as int)).pair(
        "pitch"@,
        quantity::angle_text(v.pitch as int),
    ).pair("roll"@, quantity::angle_text(v.roll as int)).pair(
        "distance"@,
        quantity::fixed_text(v.distance as int, 3, 8),
    ).pair("focus"@, quantity::point_text(v.focus));
    if v.offset.x != 0 || v.offset.y != 0 || v.offset.z != 0 {
        s.two(
            layout::labelled("offset"@, quantity::point_text(v.offset)),
            layout::unlabelled("legacy; folded into the framing"@),
        )
    } else {
        s
    }
}

/// A section with a view's haze after its rows.
pub open spec fn with_view_haze(s: SectionModel, v: SavedView, scene: Scene) -> SectionModel {
    s.two(
        layout::labelled("point_size"@, quantity::fixed_text(v.point_size as int, 4, 8)),
        layout::labelled("scene"@, quantity::fixed_text(scene.point_size as int, 4, 8)),
    ).two(
        layout::labelled("haze"@, quantity::fixed_text(view_haze(v), 2, 8)),
        layout::labelled("scene"@, quantity::fixed_text(scene.haze as int, 2, 8)),
    ).two(
        layout::labelled(
            "haze band"@,
            text::padded_left(
                if camera::band_pinned(v) {
                    "pinned"@
                } else {
                    "auto"@
                },
                8,
            ),
        ),
        layout::remark(
            if camera::band_pinned(v) {
                "near "@ + quantity::plain_text(v.haze_near as int, 2) + ", far "@
                    + quantity::plain_text(v.haze_far as int, 2)
            } else {
                "ranged from the camera distance"@
            },
        ),
    )
}

/// A section with the rest of a view after its rows.
pub open spec fn with_view_looks(s: SectionModel, v: SavedView, scene: Scene) -> SectionModel {
    let s = s.two(
        layout::labelled("color_falloff"@, quantity::optional_text(v.color_falloff)),
        layout::labelled("scene"@, quantity::fixed_text(scene.color_falloff as int, 2, 8)),
    ).two(
        layout::labelled("color_contrast"@, quantity::optional_text(v.color_contrast)),
        layout::labelled("scene"@, quantity::fixed_text(scene.color_contrast as int, 2, 8)),
    ).two(
        layout::labelled(
            "renderer"@,
            text::padded_left(
                match v.renderer {
                    Some(r) => r@,
                    None => "unset"@,
                },
                8,
            ),
        ),
        layout::labelled("default"@, "points"@),
    ).two(
        layout::labelled("exposure"@, quantity::optional_text(v.exposure)),
        layout::labelled("default"@, "1.00, splat only"@),
    );
    let s = if v.haze is None {
        s.text("haze was recovered from this view's haze_transmittance: it predates"@).text(
            "haze becoming one control, and carries only the shader values"@,
        )
    } else {
        s
    };
    s.text("a view sets only the rows above; transforms, colours, background,"@).text(
        "point_count, camera path and zoom always come from the scene"@,
    )
}

/// The section on what a view sets.
#[verifier::opaque]
pub open spec fn view_section_of(path: Seq<char>, v: SavedView, scene: Scene) -> SectionModel {
    with_view_looks(with_view_haze(view_framing_of(path, v), v, scene), v, scene)
}

/// What is noted of a view: that it was framed against another scene.
#[verifier::opaque]
pub open spec fn view_notes(v: SavedView, scene: Scene) -> Seq<NoteModel> {
    match v.scene {
        Some(named) if !names_scene(named@, lowercase(scene.name@)) => note(
            "view"@,
            "this view was framed against "@ + named@,
        ),
        _ => no_notes(),
    }
}

fn view_framing(path: &str, v: &SavedView) -> (s: Section)
    ensures
        s@ == view_framing_of(path@, *v),
{
    let mut s = Section::new("view");
    s.line(path);
    let of = match &v.scene {
        Some(n) => text::owned(n.as_str()),
        None => text::owned("unset"),
    };
    s.pair("of scene", of);
    s.pair("yaw", angle(v.rotation));
    s.pair("pitch", angle(v.pitch));
    s.pair("roll", angle(v.roll));
    s.pair("distance", length(v.distance));
    s.pair("focus", point(v.focus));
    if v.offset.x != 0 || v.offset.y != 0 || v.offset.z != 0 {
        s.two(
            Cell::new("offset", point(v.offset)),
            Cell::bare("legacy; folded into the framing"),
        );
    }
    s
}

fn add_view_haze(s: &mut Section, v: &SavedView, scene: &Scene)
    ensures
        final(s)@ == with_view_haze(old(s)@, *v, *scene),
{
    s.two(Cell::new("point_size", size(v.point_size)), Cell::new("scene", size(scene.point_size)));
    let unit: i64 = UNIT as i64;
    let haze: i64 = match v.haze {
        Some(a) => if a < 0 {
            0
        } else if a > unit {
            unit
        } else {
            a
        },
        None => v.haze_recovered,
    };
    s.two(Cell::new("haze", amount(haze)), Cell::new("scene", amount(scene.haze)));
    let pinned = v.haze.is_none() || v.haze_band_pinned;
    if pinned {
        let mut band = text::owned("near ");
        push_plain(&mut band, v.haze_near, 2);
        band.append(", far ");
        push_plain(&mut band, v.haze_far, 2);
        s.two(Cell::new("haze band", word("pinned")), Cell::note(band));
    } else {
        s.two(
            Cell::new("haze band", word("auto")),
            Cell::note(text::owned("ranged from the camera distance")),
        );
    }
}

fn add_view_looks(s: &mut Section, v: &SavedView, scene: &Scene)
    ensures
        final(s)@ == with_view_looks(old(s)@, *v, *scene),
{
    s.two(
        Cell::new("color_falloff", optional(v.color_falloff)),
        Cell::new("scene", amount(scene.color_falloff)),
    );
    s.two(
        Cell::new("color_contrast", optional(v.color_contrast)),
        Cell::new("scene", amount(scene.color_contrast)),
    );
    let renderer = match &v.renderer {
        Some(r) => word(r.as_str()),
        None => word("unset"),
    };
    s.two(Cell::new("renderer", renderer), Cell::new("default", text::owned("points")));
    s.two(
        Cell::new("exposure", optional(v.exposure)),
        Cell::new("default", text::owned("1.00, splat only")),
    );
    if v.haze.is_none() {
        s.line("haze was recovered from this view's haze_transmittance: it predates");
        s.line("haze becoming one control, and carries only the shader values");
    }
    s.line("a view sets only the rows above; transforms, colours, background,");
    s.line("point_count, camera path and zoom always come from the scene");
}

/// What a view sets, what it leaves alone, and what each of its values
/// replaced. A view is a framing measured against one attractor, so one that
/// names another scene is noted.
pub fn view_section(path: &str, v: &SavedView, scene: &Scene, notes: &mut Notes) -> (s: Section)
    ensures
        s@ == view_section_of(path@, *v, *scene),
        final(notes)@ == old(notes)@ + view_notes(*v, *scene),
{
    reveal(view_section_of);
    reveal(view_notes);
    let mut s = view_framing(path, v);
    add_view_haze(&mut s, v, scene);
    add_view_looks(&mut s, v, scene);
    assert(old(notes)@ + no_notes() =~= old(notes)@);
    if let Some(named) = &v.scene {
        let lowered = to_lowercase(scene.name.as_str());
        if !same_scene(named.as_str(), lowered.as_str()) {
            let mut t = text::owned("this view was framed against ");
            t.append(named.as_str());
            notes.add("view", t);
        }
    }
    s
}

// ---- where the attractor lands -------------------------------------------

/// Whether a map expands, or at least does not contract.
pub open spec fn expands(t: Transform) -> bool {
    t.contraction >= UNIT || t.contraction <= -UNIT
}

/// How much a map contracts, whichever way round it turns space.
pub open spec fn contraction_size(t: Transform) -> Seq<char> {
    text::ratio_text(text::magnitude_of(t.contraction as int), UNIT as nat, 3)
}

/// The maps among the first `n` that expand, with their numbers and names.
pub open spec fn expanding(scene: Scene, n: nat) -> Seq<Seq<char>>
    decreases n,
{
    if n == 0 {
        Seq::empty()
    } else {
        let before = expanding(scene, (n - 1) as nat);
        let t = scene.transforms@[n - 1];
        if expands(t) {
            before.push(
                "["@ + text::decimal((n - 1) as nat) + "] "@ + scene::map_name(scene, n - 1) + " ("@
                    + contraction_size(t) + ")"@,
            )
        } else {
            before
        }
    }
}

/// The camera distance that fills the frame, in tenths of `1 / UNIT`: 2.4
/// radii, from 0.8 to 12.
pub open spec fn filling_distance(radius: int) -> int {
    let asked = 24 * radius;
    if asked < 8 * UNIT {
        8 * UNIT as int
    } else if asked > 120 * UNIT {
        120 * UNIT as int
    } else {
        asked
    }
}

/// A distance in tenths of `1 / UNIT`, to two places.
pub open spec fn filling_text(filling: int) -> Seq<char> {
    text::ratio_text(filling as nat, 10_000_000_000, 2)
}

/// The largest crisp point at that distance: one and a half pixels of 1080.
pub open spec fn crisp_text(filling: int) -> Seq<char> {
    text::ratio_text(filling as nat, 7_200_000_000_000, 4)
}

/// The rows on an attractor that was measured.
pub open spec fn measured_section_of(scene: Scene, m: Measured) -> SectionModel {
    let filling = filling_distance(m.radius as int);
    layout::section("shape"@).pair("centre"@, quantity::point_text(m.center)).pair(
        "spread"@,
        quantity::point_text(m.spread),
    ).two(
        layout::labelled("radius"@, quantity::fixed_text(m.radius as int, 3, 8)),
        layout::labelled(
            "occupancy"@,
            text::padded_left(text::signed_ratio_text(m.occupancy as int, 10_000_000, 1), 7) + "%"@,
        ),
    ).text("to fill the frame   -S camera.distance="@ + filling_text(filling)).text(
        "for crisp points    -S meta.point_size="@ + crisp_text(filling),
    ).text(
        "the scene sets      distance "@ + quantity::plain_text(scene.camera.distance as int, 3)
            + ", point_size "@ + quantity::plain_text(scene.point_size as int, 4),
    ).text("radius is the 95th percentile of the walk's distance from the centre"@)
}

/// The section on where the attractor lands.
#[verifier::opaque]
pub open spec fn shape_section_of(scene: Scene) -> SectionModel {
    match scene.measured {
        Some(m) => measured_section_of(scene, m),
        None => {
            let s = layout::section("shape"@).text("the chaos game does not converge"@).text(
                "every weight is zero, or the walk runs away"@,
            );
            let e = expanding(scene, scene.transforms@.len());
            if e.len() > 0 {
                s.text("maps that expand:  "@ + text::joined(e, ", "@))
            } else {
                s
            }
        },
    }
}

/// The square of the distance between two points.
pub open spec fn square_distance(a: Point, b: Point) -> nat {
    ((a.x - b.x) * (a.x - b.x) + (a.y - b.y) * (a.y - b.y) + (a.z - b.z) * (a.z - b.z)) as nat
}

/// The distance between two points.
pub open spec fn distance_between(a: Point, b: Point) -> nat {
    num::root(square_distance(a, b))
}

/// A framing more than twice too far or too near.
pub open spec fn misses_the_frame(distance: int, filling: int) -> bool {
    distance >= 0 && (10 * distance > 2 * filling || filling > 20 * distance)
}

/// What is noted of a framing.
pub open spec fn distance_notes(distance: int, filling: int) -> Seq<NoteModel> {
    if misses_the_frame(distance, filling) {
        note(
            "shape"@,
            "frames at distance "@ + quantity::plain_text(distance, 2) + ", "@ + text::ratio_text(
                (10 * distance) as nat,
                filling as nat,
                1,
            ) + "x the "@ + filling_text(filling) + " that fills the frame"@,
        )
    } else {
        no_notes()
    }
}

/// What is noted of a point size.
pub open spec fn size_notes(point_size: int, filling: int) -> Seq<NoteModel> {
    if 4800 * point_size > filling {
        note(
            "render"@,
            "point_size "@ + quantity::plain_text(point_size, 4) + " is over the "@ + crisp_text(
                filling,
            ) + " crisp bound at 1080p"@,
        )
    } else {
        no_notes()
    }
}

/// What is noted of where the camera looks.
pub open spec fn focus_notes(focus: Point, m: Measured) -> Seq<NoteModel> {
    if distance_between(focus, m.center) > m.radius {
        note(
            "camera"@,
            "focus is "@ + text::ratio_text(distance_between(focus, m.center), UNIT as nat, 2)
                + " from the centre, outside the "@ + quantity::plain_text(m.radius as int, 2)
                + " radius"@,
        )
    } else {
        no_notes()
    }
}

/// What is noted of the shape.
#[verifier::opaque]
pub open spec fn shape_notes(scene: Scene, framing: OrbitCamera) -> Seq<NoteModel> {
    match scene.measured {
        Some(m) => {
            let filling = filling_distance(m.radius as int);
            distance_notes(framing.distance as int, filling) + size_notes(
                scene.point_size as int,
                filling,
            ) + focus_notes(framing.focus, m)
        },
        None => note("shape"@, "the chaos game does not converge \u{2014} nothing to render"@),
    }
}

fn push_contraction_size(out: &mut String, t: &Transform)
    ensures
        final(out)@ == old(out)@ + contraction_size(*t),
{
    let c: i128 = t.contraction as i128;
    let m: u128 = if c < 0 {
        (-c) as u128
    } else {
        c as u128
    };
    assert(text::pow10(3) == 1000) by {
        reveal_with_fuel(text::pow10, 4);
    }
    text::push_ratio(out, m, UNIT as u128, 3);
}

fn map_expands(t: &Transform) -> (b: bool)
    ensures
        b == expands(*t),
{
    let unit: i64 = UNIT as i64;
    t.contraction >= unit || t.contraction <= -unit
}

fn expanding_maps(scene: &Scene) -> (parts: Vec<String>)
    ensures
        text::views(parts@) == expanding(*scene, scene.transforms@.len()),
{
    let mut parts: Vec<String> = Vec::new();
    let mut i: usize = 0;
    assert(text::views(parts@) =~= Seq::empty());
    while i < scene.transforms.len()
        invariant
            i <= scene.transforms@.len(),
            text::views(parts@) == expanding(*scene, i as nat),
        decreases scene.transforms@.len() - i,
    {
        let t = &scene.transforms[i];
        if map_expands(t) {
            let ghost before = text::views(parts@);
            let name = name_of(scene, i);
            let mut s = text::owned("[");
            text::push_decimal(&mut s, i as u128);
            s.append("] ");
            s.append(name.as_str());
            s.append(" (");
            push_contraction_size(&mut s, t);
            s.append(")");
            let ghost line = s@;
            parts.push(s);
            assert(text::views(parts@) =~= before.push(line));
        }
        i += 1;
    }
    parts
}

fn filling_of(radius: i64) -> (f: i64)
    ensures
        f == filling_distance(radius as int),
        8_000_000_000 <= f <= 120_000_000_000,
{
    if radius <= 333_333_333 {
        8_000_000_000
    } else if radius >= 5_000_000_000 {
        120_000_000_000
    } else {
        24 * radius
    }
}

fn push_filling(out: &mut String, filling: i64)
    requires
        0 <= filling <= 120_000_000_000,
    ensures
        final(out)@ == old(out)@ + filling_text(filling as int),
{
    assert(text::pow10(2) == 100) by {
        reveal_with_fuel(text::pow10, 3);
    }
    text::push_ratio(out, filling as u128, 10_000_000_000, 2);
}

fn push_crisp(out: &mut String, filling: i64)
    requires
        0 <= filling <= 120_000_000_000,
    ensures
        final(out)@ == old(out)@ + crisp_text(filling as int),
{
    assert(text::pow10(4) == 10_000) by {
        reveal_with_fuel(text::pow10, 5);
    }
    text::push_ratio(out, filling as u128, 7_200_000_000_000, 4);
}

fn measured_section(scene: &Scene, m: &Measured) -> (s: Section)
    ensures
        s@ == measured_section_of(*scene, *m),
{
    let filling: i64 = filling_of(m.radius);
    let mut s = Section::new("shape");
    s.pair("centre", point(m.center));
    s.pair("spread", point(m.spread));
    let mut share = String::new();
    text::push_signed_ratio(&mut share, m.occupancy, 10_000_000, 1);
    assert(share@ =~= text::signed_ratio_text(m.occupancy as int, 10_000_000, 1));
    let mut occupancy = String::new();
    text::push_padded_left(&mut occupancy, share.as_str(), 7);
    occupancy.append("%");
    assert(occupancy@ =~= text::padded_left(
        text::signed_ratio_text(m.occupancy as int, 10_000_000, 1),
        7,
    ) + "%"@);
    s.two(Cell::new("radius", length(m.radius)), Cell::new("occupancy", occupancy));
    let mut fill = text::owned("to fill the frame   -S camera.distance=");
    push_filling(&mut fill, filling);
    s.text(fill);
    let mut crisp = text::owned("for crisp points    -S meta.point_size=");
    push_crisp(&mut crisp, filling);
    s.text(crisp);
    let mut sets = text::owned("the scene sets      distance ");
    push_plain(&mut sets, scene.camera.distance, 3);
    sets.append(", point_size ");
    push_plain(&mut sets, scene.point_size, 4);
    s.text(sets);
    s.line("radius is the 95th percentile of the walk's distance from the centre");
    s
}

/// The distance between two points near enough to be measured.
pub fn distance(a: Point, b: Point) -> (d: u64)
    requires
        is_near(a),
        is_near(b),
    ensures
        d == distance_between(a, b),
{
    let x: i128 = a.x as i128 - b.x as i128;
    let y: i128 = a.y as i128 - b.y as i128;
    let z: i128 = a.z as i128 - b.z as i128;
    let square: u128 = squared(x) + squared(y) + squared(z);
    assert(square == square_distance(a, b));
    num::root_of(square)
}

fn squared(x: i128) -> (s: u128)
    requires
        -8_000_000_000_000_000_000 <= x <= 8_000_000_000_000_000_000,
    ensures
        s == x * x,
        s <= 64_000_000_000_000_000_000_000_000_000_000_000_000,
{
    assert(0 <= x * x <= 64_000_000_000_000_000_000_000_000_000_000_000_000) by (nonlinear_arith)
        requires
            -8_000_000_000_000_000_000 <= x <= 8_000_000_000_000_000_000,
    ;
    (x * x) as u128
}

fn note_distance(distance: i64, filling: i64, notes: &mut Notes)
    requires
        8_000_000_000 <= filling <= 120_000_000_000,
    ensures
        final(notes)@ == old(notes)@ + distance_notes(distance as int, filling as int),
{
    assert(old(notes)@ + no_notes() =~= old(notes)@);
    if distance >= 0 {
        let wide: u128 = 10 * distance as u128;
        let f: u128 = filling as u128;
        if wide > 2 * f || f > 2 * wide {
            assert(text::pow10(1) == 10) by {
                reveal_with_fuel(text::pow10, 2);
            }
            let mut t = text::owned("frames at distance ");
            push_plain(&mut t, distance, 2);
            t.append(", ");
            text::push_ratio(&mut t, wide, f, 1);
            t.append("x the ");
            push_filling(&mut t, filling);
            t.append(" that fills the frame");
            notes.add("shape", t);
        }
    }
}

fn note_size(point_size: i64, filling: i64, notes: &mut Notes)
    requires
        8_000_000_000 <= filling <= 120_000_000_000,
    ensures
        final(notes)@ == old(notes)@ + size_notes(point_size as int, filling as int),
{
    assert(old(notes)@ + no_notes() =~= old(notes)@);
    if 4800 * point_size as i128 > filling as i128 {
        let mut t = text::owned("point_size ");
        push_plain(&mut t, point_size, 4);
        t.append(" is over the ");
        push_crisp(&mut t, filling);
        t.append(" crisp bound at 1080p");
        notes.add("render", t);
    }
}

fn note_focus(focus: Point, m: &Measured, notes: &mut Notes)
    requires
        is_near(focus),
        is_near(m.center),
    ensures
        final(notes)@ == old(notes)@ + focus_notes(focus, *m),
{
    assert(old(notes)@ + no_notes() =~= old(notes)@);
    let off: u64 = distance(focus, m.center);
    if off as i128 > m.radius as i128 {
        assert(text::pow10(2) == 100) by {
            reveal_with_fuel(text::pow10, 3);
        }
        let mut t = text::owned("focus is ");
        text::push_ratio(&mut t, off as u128, UNIT as u128, 2);
        t.append(" from the centre, outside the ");
        push_plain(&mut t, m.radius, 2);
        t.append(" radius");
        notes.add("camera", t);
    }
}

/// Where the attractor lands, and the two numbers most often wrong in a
/// hand-authored scene, as commands rather than as facts. What is noted is
/// against the framing that would render.
pub fn shape_section(scene: &Scene, framing: &OrbitCamera, notes: &mut Notes) -> (s: Section)
    requires
        is_near(framing.focus),
        scene.measured matches Some(m) ==> is_near(m.center),
    ensures
        s@ == shape_section_of(*scene),
        final(notes)@ == old(notes)@ + shape_notes(*scene, *framing),
{
    reveal(shape_section_of);
    reveal(shape_notes);
    match &scene.measured {
        Some(m) => {
            let s = measured_section(scene, m);
            let filling: i64 = filling_of(m.radius);
            note_distance(framing.distance, filling, notes);
            note_size(scene.point_size, filling, notes);
            note_focus(framing.focus, m, notes);
            assert(notes@ =~= old(notes)@ + shape_notes(*scene, *framing));
            s
        },
        None => {
            let mut s = Section::new("shape");
            s.line("the chaos game does not converge");
            s.line("every weight is zero, or the walk runs away");
            notes.say("shape", "the chaos game does not converge \u{2014} nothing to render");
            let parts = expanding_maps(scene);
            assert(parts@.len() == text::views(parts@).len());
            if parts.len() > 0 {
                let list = text::join(&parts, ", ");
                let mut t = text::owned("maps that expand:  ");
                t.append(list.as_str());
                s.text(t);
            }
            s
        },
    }
}

// ---- the maps ------------------------------------------------------------

/// The weights of the first `n` maps, added up.
pub open spec fn total_weight(scene: Scene, n: nat) -> int
    decreases n,
{
    if n == 0 {
        0
    } else {
        total_weight(scene, (n - 1) as nat) + scene.transforms@[n - 1].weight
    }
}

/// A weight as a share of the walk.
pub open spec fn share_text(weight: int, total: int) -> Seq<char> {
    text::padded_left(
        if total > 0 {
            text::signed_ratio_text(100 * weight, total as nat, 1)
        } else {
            text::ratio_text(0, 1, 1)
        },
        6,
    ) + "%"@
}

/// A scale: one number where the three are the same, to a ten-thousandth.
pub open spec fn scale_text(s: Point) -> Seq<char> {
    if -100_000 < s.x - s.y < 100_000 && -100_000 < s.x - s.z < 100_000 {
        quantity::plain_text(s.x as int, 3)
    } else {
        "["@ + quantity::plain_text(s.x as int, 3) + ", "@ + quantity::plain_text(s.y as int, 3)
            + ", "@ + quantity::plain_text(s.z as int, 3) + "]"@
    }
}

/// The longest of the first `n` names.
pub open spec fn widest_name(scene: Scene, n: nat) -> nat
    decreases n,
{
    if n == 0 {
        0
    } else {
        let before = widest_name(scene, (n - 1) as nat);
        let here = scene::map_name(scene, n - 1).len();
        if before < here {
            here
        } else {
            before
        }
    }
}

/// The longest of the first `n` scales.
pub open spec fn widest_scale(scene: Scene, n: nat) -> nat
    decreases n,
{
    if n == 0 {
        0
    } else {
        let before = widest_scale(scene, (n - 1) as nat);
        let here = scale_text(scene.transforms@[n - 1].scale).len();
        if before < here {
            here
        } else {
            before
        }
    }
}

/// A width held between two bounds.
pub open spec fn held(w: nat, least: nat, most: nat) -> nat {
    if w < least {
        least
    } else if w > most {
        most
    } else {
        w
    }
}

/// The colour a map renders as: where its index falls on the palette, or the
/// map's own colour, black where it has none.
pub open spec fn rendered_color(scene: Scene, i: int) -> Color {
    if scene.color_mode == ColorMode::Palette {
        scene.transforms@[i].sampled
    } else if i < scene.colors@.len() {
        scene.colors@[i]
    } else {
        Color { red: 0, green: 0, blue: 0, luminance: 0 }
    }
}

/// A colour's hex, and the paint that it wears in a coloured report.
pub open spec fn tinted(c: Color) -> SpanModel {
    SpanModel { open: quantity::tint_text(c), text: quantity::hex_text(c), close: "\u{1b}[0m"@ }
}

fn tinted_hex(c: Color) -> (s: Span)
    ensures
        s@ == tinted(c),
{
    Span { open: tint(c), text: hex(c), close: text::owned("\u{1b}[0m") }
}

/// The first line on a map: its share, what it does to space, its colour.
pub open spec fn map_head(scene: Scene, total: int, width: nat, i: int) -> Seq<SpanModel> {
    let t = scene.transforms@[i];
    seq![
        layout::unpainted(
            "["@ + text::decimal(i as nat) + "] "@ + text::padded_right(
                scene::map_name(scene, i),
                width,
            ) + " "@ + share_text(t.weight as int, total) + "   "@ + (if expands(t) {
                "expansion  "@
            } else {
                "contraction"@
            }) + " "@ + quantity::fixed_text(t.contraction as int, 3, 6) + "   "@,
        ),
        tinted(rendered_color(scene, i)),
        layout::unpainted(" @"@ + quantity::plain_text(t.color_value as int, 2)),
    ]
}

/// A colour speed worth saying: one that differs from the scene's.
pub open spec fn speed_text(scene: Scene, t: Transform) -> Seq<char> {
    if t.color_speed - scene.color_speed > 5_000_000 || scene.color_speed - t.color_speed
        > 5_000_000 {
        "   speed "@ + quantity::plain_text(t.color_speed as int, 2)
    } else {
        Seq::empty()
    }
}

/// The second line on a map: its scale and rotation.
pub open spec fn map_affine(scene: Scene, width: nat, i: int) -> Seq<char> {
    let t = scene.transforms@[i];
    "    scale "@ + text::padded_right(scale_text(t.scale), width) + "   rot ("@
        + quantity::degrees_text(t.rotation.x as int, 0, 4) + ","@ + quantity::degrees_text(
        t.rotation.y as int,
        0,
        4,
    ) + ","@ + quantity::degrees_text(t.rotation.z as int, 0, 4) + ")\u{b0}"@ + speed_text(scene, t)
}

/// A section with four lines on each of the first `n` maps after its rows.
pub open spec fn with_maps(
    s: SectionModel,
    scene: Scene,
    total: int,
    names: nat,
    scales: nat,
    n: nat,
) -> SectionModel
    decreases n,
{
    if n == 0 {
        s
    } else {
        let t = scene.transforms@[n - 1];
        with_maps(s, scene, total, names, scales, (n - 1) as nat).painted(
            map_head(scene, total, names, n - 1),
        ).text(map_affine(scene, scales, n - 1)).text(
            "    move  "@ + quantity::point_text(t.translation),
        ).text("    vars  "@ + t.variations@)
    }
}

/// The section on the maps.
#[verifier::opaque]
pub open spec fn maps_section_of(scene: Scene) -> SectionModel {
    let n = scene.transforms@.len();
    with_maps(
        layout::section("maps"@).text(
            text::decimal(n) + "   share of the walk, contraction, colour as rendered"@,
        ),
        scene,
        total_weight(scene, n),
        held(widest_name(scene, n), 6, 14),
        held(widest_scale(scene, n), 5, 22),
        n,
    ).text("a negative contraction is a map that reflects; one at or past 1.0"@).text(
        "expands. rotations are re-derived from the matrix, so the euler"@,
    ).text("branch may differ from the file \u{2014} the rotation itself is the same"@)
}

/// What is noted of one map: that it expands, that it never fires.
pub open spec fn map_notes(scene: Scene, i: int) -> Seq<NoteModel> {
    let t = scene.transforms@[i];
    let head = "["@ + text::decimal(i as nat) + "] "@ + scene::map_name(scene, i);
    (if expands(t) {
        note(
            "maps"@,
            head + " expands ("@ + contraction_size(t) + ") \u{2014} the walk will not settle"@,
        )
    } else {
        no_notes()
    }) + (if t.weight <= 0 {
        note("maps"@, head + " has weight 0 and never fires"@)
    } else {
        no_notes()
    })
}

/// What is noted of the first `n` maps.
pub open spec fn maps_notes(scene: Scene, n: nat) -> Seq<NoteModel>
    decreases n,
{
    if n == 0 {
        no_notes()
    } else {
        maps_notes(scene, (n - 1) as nat) + map_notes(scene, n - 1)
    }
}

fn weigh(scene: &Scene) -> (total: i128)
    requires
        scene.transforms@.len() <= 0x1_0000_0000,
    ensures
        total == total_weight(*scene, scene.transforms@.len()),
        -0x8000_0000_0000_0000_0000_0000 <= total <= 0x8000_0000_0000_0000_0000_0000,
{
    let mut total: i128 = 0;
    let mut i: usize = 0;
    while i < scene.transforms.len()
        invariant
            i <= scene.transforms@.len() <= 0x1_0000_0000,
            total == total_weight(*scene, i as nat),
            -0x8000_0000_0000_0000 * i <= total <= 0x8000_0000_0000_0000 * i,
        decreases scene.transforms@.len() - i,
    {
        total = total + scene.transforms[i].weight as i128;
        i += 1;
    }
    total
}

fn push_share(out: &mut String, weight: i64, total: i128)
    requires
        total <= 0x8000_0000_0000_0000_0000_0000,
    ensures
        final(out)@ == old(out)@ + share_text(weight as int, total as int),
{
    assert(text::pow10(1) == 10) by {
        reveal_with_fuel(text::pow10, 2);
    }
    let mut s = String::new();
    if total > 0 {
        let w: i128 = 100 * weight as i128;
        if w < 0 {
            s.push('-');
            text::push_ratio(&mut s, (-w) as u128, total as u128, 1);
        } else {
            text::push_ratio(&mut s, w as u128, total as u128, 1);
        }
        assert(s@ =~= text::signed_ratio_text(100 * weight, total as nat, 1));
    } else {
        text::push_ratio(&mut s, 0, 1, 1);
        assert(s@ =~= text::ratio_text(0, 1, 1));
    }
    text::push_padded_left(out, s.as_str(), 6);
    out.append("%");
    assert(out@ =~= old(out)@ + share_text(weight as int, total as int));
}

/// A scale: one number where the three are the same.
pub fn fmt_scale(s: Point) -> (r: String)
    ensures
        r@ == scale_text(s),
{
    let xy: i128 = s.x as i128 - s.y as i128;
    let xz: i128 = s.x as i128 - s.z as i128;
    let mut r = String::new();
    if -100_000 < xy && xy < 100_000 && -100_000 < xz && xz < 100_000 {
        push_plain(&mut r, s.x, 3);
    } else {
        r.append("[");
        push_plain(&mut r, s.x, 3);
        r.append(", ");
        push_plain(&mut r, s.y, 3);
        r.append(", ");
        push_plain(&mut r, s.z, 3);
        r.append("]");
    }
    assert(r@ =~= scale_text(s));
    r
}

fn name_width(scene: &Scene) -> (w: usize)
    ensures
        w == held(widest_name(*scene, scene.transforms@.len()), 6, 14),
{
    let mut w: usize = 0;
    let mut i: usize = 0;
    while i < scene.transforms.len()
        invariant
            i <= scene.transforms@.len(),
            w == widest_name(*scene, i as nat),
        decreases scene.transforms@.len() - i,
    {
        let name = name_of(scene, i);
        let n: usize = text::char_count(name.as_str());
        if w < n {
            w = n;
        }
        i += 1;
    }
    if w < 6 {
        6
    } else if w > 14 {
        14
    } else {
        w
    }
}

fn scale_width(scene: &Scene) -> (w: usize)
    ensures
        w == held(widest_scale(*scene, scene.transforms@.len()), 5, 22),
{
    let mut w: usize = 0;
    let mut i: usize = 0;
    while i < scene.transforms.len()
        invariant
            i <= scene.transforms@.len(),
            w == widest_scale(*scene, i as nat),
        decreases scene.transforms@.len() - i,
    {
        let s = fmt_scale(scene.transforms[i].scale);
        let n: usize = text::char_count(s.as_str());
        if w < n {
            w = n;
        }
        i += 1;
    }
    if w < 5 {
        5
    } else if w > 22 {
        22
    } else {
        w
    }
}

fn color_of(scene: &Scene, i: usize) -> (c: Color)
    requires
        i < scene.transforms@.len(),
    ensures
        c == rendered_color(*scene, i as int),
{
    if scene.color_mode == ColorMode::Palette {
        scene.transforms[i].sampled
    } else if i < scene.colors.len() {
        scene.colors[i]
    } else {
        Color { red: 0, green: 0, blue: 0, luminance: 0 }
    }
}

fn head_line(scene: &Scene, total: i128, width: usize, i: usize) -> (v: Vec<Span>)
    requires
        i < scene.transforms@.len(),
        total <= 0x8000_0000_0000_0000_0000_0000,
    ensures
        layout::span_views(v@) == map_head(*scene, total as int, width as nat, i as int),
{
    let t = &scene.transforms[i];
    let name = name_of(scene, i);
    let mut s = text::owned("[");
    text::push_decimal(&mut s, i as u128);
    s.append("] ");
    text::push_padded_right(&mut s, name.as_str(), width);
    s.append(" ");
    push_share(&mut s, t.weight, total);
    s.append("   ");
    if map_expands(t) {
        s.append("expansion  ");
    } else {
        s.append("contraction");
    }
    s.append(" ");
    push_fixed(&mut s, t.contraction, 3, 6);
    s.append("   ");
    let mut place = text::owned(" @");
    push_plain(&mut place, t.color_value, 2);
    let ghost (front, back) = (s@, place@);
    let mut v: Vec<Span> = Vec::new();
    v.push(Span::bare(s));
    v.push(tinted_hex(color_of(scene, i)));
    v.push(Span::bare(place));
    assert(layout::span_views(v@) =~= seq![
        layout::unpainted(front),
        tinted(rendered_color(*scene, i as int)),
        layout::unpainted(back),
    ]);
    v
}

fn affine_line(scene: &Scene, width: usize, i: usize) -> (s: String)
    requires
        i < scene.transforms@.len(),
    ensures
        s@ == map_affine(*scene, width as nat, i as int),
{
    let t = &scene.transforms[i];
    let scale = fmt_scale(t.scale);
    let mut s = text::owned("    scale ");
    text::push_padded_right(&mut s, scale.as_str(), width);
    s.append("   rot (");
    push_degrees(&mut s, t.rotation.x, 0, 4);
    s.append(",");
    push_degrees(&mut s, t.rotation.y, 0, 4);
    s.append(",");
    push_degrees(&mut s, t.rotation.z, 0, 4);
    s.append(")\u{b0}");
    let apart: i128 = t.color_speed as i128 - scene.color_speed as i128;
    if apart > 5_000_000 || -apart > 5_000_000 {
        s.append("   speed ");
        push_plain(&mut s, t.color_speed, 2);
    }
    assert(s@ =~= map_affine(*scene, width as nat, i as int));
    s
}

fn note_map(scene: &Scene, i: usize, notes: &mut Notes)
    requires
        i < scene.transforms@.len(),
    ensures
        final(notes)@ == old(notes)@ + map_notes(*scene, i as int),
{
    let t = &scene.transforms[i];
    let name = name_of(scene, i);
    if map_expands(t) {
        let mut s = text::owned("[");
        text::push_decimal(&mut s, i as u128);
        s.append("] ");
        s.append(name.as_str());
        s.append(" expands (");
        push_contraction_size(&mut s, t);
        s.append(") \u{2014} the walk will not settle");
        notes.add("maps", s);
    }
    if t.weight <= 0 {
        let mut s = text::owned("[");
        text::push_decimal(&mut s, i as u128);
        s.append("] ");
        s.append(name.as_str());
        s.append(" has weight 0 and never fires");
        notes.add("maps", s);
    }
    assert(notes@ =~= old(notes)@ + map_notes(*scene, i as int));
}

/// The transforms: four lines each, always, in a block that labels every row
/// because by the fifth map its header is far up. What is wrong with a map
/// goes in the notes.
pub fn maps_section(scene: &Scene, notes: &mut Notes) -> (s: Section)
    requires
        scene.transforms@.len() <= 0x1_0000_0000,
    ensures
        s@ == maps_section_of(*scene),
        final(notes)@ == old(notes)@ + maps_notes(*scene, scene.transforms@.len()),
{
    reveal(maps_section_of);
    let n: usize = scene.transforms.len();
    let mut s = Section::new("maps");
    let mut header = text::decimal_string(n as u128);
    header.append("   share of the walk, contraction, colour as rendered");
    s.text(header);
    let ghost head = s@;
    let total: i128 = weigh(scene);
    let names: usize = name_width(scene);
    let scales: usize = scale_width(scene);
    let mut i: usize = 0;
    assert(notes@ =~= old(notes)@ + maps_notes(*scene, 0));
    while i < n
        invariant
            i <= n,
            n == scene.transforms@.len(),
            total <= 0x8000_0000_0000_0000_0000_0000,
            s@ == with_maps(
                head,
                *scene,
                total as int,
                names as nat,
                scales as nat,
                i as nat,
            ),
            notes@ == old(notes)@ + maps_notes(*scene, i as nat),
        decreases n - i,
    {
        let t = &scene.transforms[i];
        note_map(scene, i, notes);
        s.painted(head_line(scene, total, names, i));
        s.text(affine_line(scene, scales, i));
        let mut moved = text::owned("    move  ");
        let to = point(t.translation);
        moved.append(to.as_str());
        s.text(moved);
        let mut vars = text::owned("    vars  ");
        vars.append(t.variations.as_str());
        s.text(vars);
        i += 1;
        assert(notes@ =~= old(notes)@ + maps_notes(*scene, i as nat));
    }
    s.line("a negative contraction is a map that reflects; one at or past 1.0");
    s.line("expands. rotations are re-derived from the matrix, so the euler");
    s.line("branch may differ from the file \u{2014} the rotation itself is the same");
    s
}

// ---- how it renders ------------------------------------------------------

/// The section on render settings.
#[verifier::opaque]
pub open spec fn render_section_of(scene: Scene) -> SectionModel {
    layout::section("render"@).three(
        layout::labelled("point_size"@, quantity::fixed_text(scene.point_size as int, 4, 8)),
        layout::labelled("point_count"@, quantity::count_text(scene.point_count as nat)),
        layout::remark(
            if scene.point_count_defaulted {
                "(default)"@
            } else {
                ""@
            },
        ),
    ).two(
        layout::labelled("haze"@, quantity::fixed_text(scene.haze as int, 2, 8)),
        layout::labelled("decay"@, quantity::fixed_text(scene.decay as int, 2, 8)),
    ).two(
        layout::labelled("exposure"@, quantity::fixed_text(scene.exposure as int, 2, 8)),
        layout::labelled("background"@, quantity::point_text(scene.background)),
    ).text("background is linear RGB, as the shader takes it, not sRGB"@)
}

/// How the scene renders.
pub fn render_section(scene: &Scene) -> (s: Section)
    ensures
        s@ == render_section_of(*scene),
{
    reveal(render_section_of);
    let mut s = Section::new("render");
    let defaulted = text::owned(
        if scene.point_count_defaulted {
            "(default)"
        } else {
            ""
        },
    );
    s.three(
        Cell::new("point_size", size(scene.point_size)),
        Cell::new("point_count", count(scene.point_count)),
        Cell::note(defaulted),
    );
    s.two(Cell::new("haze", amount(scene.haze)), Cell::new("decay", amount(scene.decay)));
    s.two(
        Cell::new("exposure", amount(scene.exposure)),
        Cell::new("background", point(scene.background)),
    );
    s.line("background is linear RGB, as the shader takes it, not sRGB");
    s
}

// ---- its colours ---------------------------------------------------------

/// What is said of a colour mode.
pub open spec fn mode_text(scene: Scene) -> Seq<char> {
    match scene.color_mode {
        ColorMode::Palette => scene.gradient.description@,
        ColorMode::Transforms => text::decimal(scene.colors@.len())
            + " transform colours, evenly spread"@,
        ColorMode::Mix => text::decimal(scene.colors@.len()) + " transform colours mixed as RGB"@,
    }
}

/// The colours that are shown: the ones that are blended in mix mode, which
/// never reads a ring, and the gradient's otherwise.
pub open spec fn shown_colors(scene: Scene) -> Seq<Color> {
    if scene.color_mode == ColorMode::Mix {
        scene.colors@
    } else {
        scene.gradient.ramp@
    }
}

/// How many colours of a ramp stand on one line, so that it never wraps.
pub const PER_LINE: usize = 6;

/// Colours as hex with spaces between them.
pub open spec fn ramp_spans(colors: Seq<Color>) -> Seq<SpanModel>
    decreases colors.len(),
{
    if colors.len() == 0 {
        Seq::empty()
    } else {
        ramp_spans(colors.drop_last()) + (if colors.len() > 1 {
            seq![layout::unpainted(" "@)]
        } else {
            Seq::empty()
        }) + seq![tinted(colors.last())]
    }
}

/// The colours on row `k` of a ramp.
pub open spec fn ramp_row(colors: Seq<Color>, k: int) -> Seq<Color> {
    let from = PER_LINE * k;
    colors.subrange(
        from,
        if from + PER_LINE < colors.len() {
            from + PER_LINE
        } else {
            colors.len() as int
        },
    )
}

/// A section with the first `n` rows of a ramp after its rows, the first of
/// them behind a label.
pub open spec fn with_ramp(s: SectionModel, label: Seq<char>, colors: Seq<Color>, n: nat) -> SectionModel
    decreases n,
{
    if n == 0 {
        s
    } else {
        with_ramp(s, label, colors, (n - 1) as nat).painted(
            seq![
                layout::unpainted(
                    text::padded_right(
                        if n == 1 {
                            label
                        } else {
                            ""@
                        },
                        8,
                    ),
                ),
            ] + ramp_spans(ramp_row(colors, n - 1)),
        )
    }
}

/// The section on colour.
#[verifier::opaque]
pub open spec fn colour_section_of(scene: Scene) -> SectionModel {
    let mix = scene.color_mode == ColorMode::Mix;
    let s = layout::section("colour"@).two(
        layout::labelled("mode"@, text::padded_left(scene.color_mode.name_text(), 8)),
        layout::remark(mode_text(scene)),
    ).three(
        layout::labelled("speed"@, quantity::fixed_text(scene.color_speed as int, 2, 8)),
        layout::labelled("falloff"@, quantity::fixed_text(scene.color_falloff as int, 2, 8)),
        layout::labelled("contrast"@, quantity::fixed_text(scene.color_contrast as int, 2, 8)),
    ).two(
        layout::labelled(
            "luminance"@,
            quantity::fixed_text(scene.gradient.mean_luminance as int, 2, 8),
        ),
        layout::labelled("swing"@, quantity::fixed_text(scene.gradient.swing as int, 2, 8)),
    );
    let shown = shown_colors(scene);
    let s = with_ramp(
        s,
        if mix {
            "colours"@
        } else {
            "ramp"@
        },
        shown,
        ((shown.len() + PER_LINE - 1) / PER_LINE as int) as nat,
    ).swatch(
        text::padded_right(""@, 8) + (if mix {
            quantity::swatch_text(scene.colors@, 7)
        } else {
            quantity::swatch_text(scene.gradient.swatch@, 1)
        }),
    );
    if mix {
        s.text("mix mode has no colormap, so transform *combinations* are"@).text(
            "distinguishable and color_contrast does not apply"@,
        )
    } else {
        s
    }
}

/// What is noted of the colours.
#[verifier::opaque]
pub open spec fn colour_notes(scene: Scene) -> Seq<NoteModel> {
    (if scene.gradient.swing < 150_000_000 {
        note(
            "colour"@,
            "the gradient is flat (swing "@ + quantity::plain_text(scene.gradient.swing as int, 2)
                + ") \u{2014} renders unshaded"@,
        )
    } else {
        no_notes()
    }) + (if scene.color_mode == ColorMode::Transforms && scene.has_palette {
        note(
            "colour"@,
            "this scene carries a [palette]; --color-mode palette renders it"@,
        )
    } else {
        no_notes()
    }) + (if scene.color_contrast > 1_500_000_000 && scene.color_mode != ColorMode::Mix {
        note(
            "colour"@,
            "color_contrast "@ + quantity::plain_text(scene.color_contrast as int, 2)
                + " stretches the index \u{2014} only part of the ramp is reached"@,
        )
    } else {
        no_notes()
    })
}

fn note_colours(scene: &Scene, notes: &mut Notes)
    ensures
        final(notes)@ == old(notes)@ + colour_notes(*scene),
{
    reveal(colour_notes);
    if scene.gradient.swing < 150_000_000 {
        let mut t = text::owned("the gradient is flat (swing ");
        push_plain(&mut t, scene.gradient.swing, 2);
        t.append(") \u{2014} renders unshaded");
        notes.add("colour", t);
    }
    if scene.color_mode == ColorMode::Transforms && scene.has_palette {
        notes.say("colour", "this scene carries a [palette]; --color-mode palette renders it");
    }
    if scene.color_contrast > 1_500_000_000 && scene.color_mode != ColorMode::Mix {
        let mut t = text::owned("color_contrast ");
        push_plain(&mut t, scene.color_contrast, 2);
        t.append(" stretches the index \u{2014} only part of the ramp is reached");
        notes.add("colour", t);
    }
    assert(notes@ =~= old(notes)@ + colour_notes(*scene));
}

fn spans_of(head: String, colors: &Vec<Color>, from: usize, to: usize) -> (v: Vec<Span>)
    requires
        from <= to <= colors@.len(),
    ensures
        layout::span_views(v@) == seq![layout::unpainted(head@)] + ramp_spans(
            colors@.subrange(from as int, to as int),
        ),
{
    let ghost all = colors@.subrange(from as int, to as int);
    let ghost front = seq![layout::unpainted(head@)];
    let mut v: Vec<Span> = Vec::new();
    v.push(Span::bare(head));
    let mut i: usize = from;
    assert(all.take(0) =~= Seq::empty());
    assert(layout::span_views(v@) =~= front + ramp_spans(all.take(0)));
    while i < to
        invariant
            from <= i <= to <= colors@.len(),
            all == colors@.subrange(from as int, to as int),
            layout::span_views(v@) == front + ramp_spans(all.take(i - from)),
        decreases to - i,
    {
        let ghost before = layout::span_views(v@);
        assert(all.take(i - from + 1).drop_last() =~= all.take(i - from));
        assert(all.take(i - from + 1).last() == colors@[i as int]);
        let ghost gap = if i > from {
            seq![layout::unpainted(" "@)]
        } else {
            Seq::empty()
        };
        if i > from {
            v.push(Span::bare(text::owned(" ")));
        }
        assert(layout::span_views(v@) =~= before + gap);
        v.push(tinted_hex(colors[i]));
        assert(layout::span_views(v@) =~= before + gap + seq![tinted(colors@[i as int])]);
        i += 1;
        assert(layout::span_views(v@) =~= front + ramp_spans(all.take(i - from)));
    }
    assert(all.take(i - from) =~= all);
    v
}

fn add_ramp(s: &mut Section, label: &str, colors: &Vec<Color>)
    ensures
        final(s)@ == with_ramp(
            old(s)@,
            label@,
            colors@,
            ((colors@.len() + PER_LINE - 1) / PER_LINE as int) as nat,
        ),
{
    let n: usize = colors.len();
    let mut from: usize = 0;
    let ghost mut k: nat = 0;
    while from < n
        invariant
            from <= n,
            n == colors@.len(),
            from == n || from == PER_LINE * k,
            k == (from + PER_LINE - 1) / PER_LINE as int,
            s@ == with_ramp(old(s)@, label@, colors@, k),
        decreases n - from,
    {
        let to: usize = if n - from > PER_LINE {
            from + PER_LINE
        } else {
            n
        };
        let mut head = String::new();
        if from == 0 {
            text::push_padded_right(&mut head, label, 8);
        } else {
            text::push_padded_right(&mut head, "", 8);
        }
        let ghost lead = if from == 0 {
            label@
        } else {
            ""@
        };
        assert(head@ =~= text::padded_right(lead, 8));
        assert(ramp_row(colors@, k as int) == colors@.subrange(from as int, to as int));
        s.painted(spans_of(head, colors, from, to));
        proof {
            k = k + 1;
        }
        from = to;
    }
}

/// The gradient is the one render property that a file cannot convey, so it is
/// printed, as hex that survives a pipe; paint is added only in colour.
pub fn colour_section(scene: &Scene, notes: &mut Notes) -> (s: Section)
    ensures
        s@ == colour_section_of(*scene),
        final(notes)@ == old(notes)@ + colour_notes(*scene),
{
    reveal(colour_section_of);
    let mix = scene.color_mode == ColorMode::Mix;
    let mut s = Section::new("colour");
    let said = match scene.color_mode {
        ColorMode::Palette => text::owned(scene.gradient.description.as_str()),
        ColorMode::Transforms => {
            let mut t = text::decimal_string(scene.colors.len() as u128);
            t.append(" transform colours, evenly spread");
            t
        },
        ColorMode::Mix => {
            let mut t = text::decimal_string(scene.colors.len() as u128);
            t.append(" transform colours mixed as RGB");
            t
        },
    };
    assert(said@ == mode_text(*scene));
    s.two(Cell::new("mode", word(scene.color_mode.name())), Cell::note(said));
    s.three(
        Cell::new("speed", amount(scene.color_speed)),
        Cell::new("falloff", amount(scene.color_falloff)),
        Cell::new("contrast", amount(scene.color_contrast)),
    );
    s.two(
        Cell::new("luminance", amount(scene.gradient.mean_luminance)),
        Cell::new("swing", amount(scene.gradient.swing)),
    );
    if mix {
        add_ramp(&mut s, "colours", &scene.colors);
    } else {
        add_ramp(&mut s, "ramp", &scene.gradient.ramp);
    }
    let paint = if mix {
        color_swatch(&scene.colors)
    } else {
        swatch(&scene.gradient.swatch)
    };
    let mut t = String::new();
    text::push_padded_right(&mut t, "", 8);
    t.append(paint.as_str());
    assert(t@ =~= text::padded_right(""@, 8) + paint@);
    s.swatch(t);
    if mix {
        s.line("mix mode has no colormap, so transform *combinations* are");
        s.line("distinguishable and color_contrast does not apply");
    }
    note_colours(scene, notes);
    s
}

// ---- its camera ----------------------------------------------------------

/// Where a framing came from.
pub open spec fn origin_text(view: bool, flags: bool) -> Seq<char> {
    if view && flags {
        "--view, then the camera flags"@
    } else if view {
        "--view"@
    } else if flags {
        "the scene, then the camera flags"@
    } else {
        "the scene"@
    }
}

/// The section on the camera.
#[verifier::opaque]
pub open spec fn camera_section_of(subject: Subject) -> SectionModel {
    let c = subject.framing();
    let own = subject.scene.camera;
    let view = subject.view is Some;
    let flags = !subject.camera.says_nothing();
    let s = layout::section("camera"@).pair("yaw"@, quantity::angle_text(c.yaw as int)).pair(
        "pitch"@,
        quantity::angle_text(c.pitch as int),
    ).pair("roll"@, quantity::angle_text(c.roll as int)).pair(
        "distance"@,
        quantity::fixed_text(c.distance as int, 3, 8),
    ).pair("focus"@, quantity::point_text(c.focus)).text("from "@ + origin_text(view, flags));
    let s = if view || flags {
        s.text(
            "the scene's own: yaw "@ + quantity::plain_text(own.yaw as int, 4) + " pitch "@
                + quantity::plain_text(own.pitch as int, 4) + " distance "@ + quantity::plain_text(
                own.distance as int,
                3,
            ),
        ).text("                 focus "@ + quantity::point_text(own.focus))
    } else {
        s
    };
    if subject.scene.zoom is Some {
        s.text("under infinite zoom, reported in the canonical period as it renders"@)
    } else {
        s
    }
}

/// The framing that would render, with the scene's own kept underneath where
/// something was layered over it.
pub fn camera_section(subject: &Subject, framing: &OrbitCamera) -> (s: Section)
    requires
        *framing == subject.framing(),
    ensures
        s@ == camera_section_of(*subject),
{
    reveal(camera_section_of);
    let scene = subject.scene;
    let view = subject.view.is_some();
    let flags = !subject.camera.is_empty();
    let mut s = Section::new("camera");
    s.pair("yaw", angle(framing.yaw));
    s.pair("pitch", angle(framing.pitch));
    s.pair("roll", angle(framing.roll));
    s.pair("distance", length(framing.distance));
    s.pair("focus", point(framing.focus));
    let mut from = text::owned("from ");
    from.append(
        if view && flags {
            "--view, then the camera flags"
        } else if view {
            "--view"
        } else if flags {
            "the scene, then the camera flags"
        } else {
            "the scene"
        },
    );
    s.text(from);
    if view || flags {
        let mut t = text::owned("the scene's own: yaw ");
        push_plain(&mut t, scene.camera.yaw, 4);
        t.append(" pitch ");
        push_plain(&mut t, scene.camera.pitch, 4);
        t.append(" distance ");
        push_plain(&mut t, scene.camera.distance, 3);
        s.text(t);
        let mut f = text::owned("                 focus ");
        let at = point(scene.camera.focus);
        f.append(at.as_str());
        s.text(f);
    }
    if scene.zoom.is_some() {
        s.line("under infinite zoom, reported in the canonical period as it renders");
    }
    s
}

// ---- its flight ----------------------------------------------------------

/// How a path closes, in words.
pub open spec fn loops_text(loops: Loops) -> Seq<char> {
    match loops {
        Loops::Zoom(periods) => "zoom loop, "@ + text::decimal(periods as nat) + " period"@ + (
        if periods == 1 {
            ""@
        } else {
            "s"@
        }) + " down per loop"@,
        Loops::PingPong => "ping-pong loop"@,
        Loops::Other(label) => label@,
    }
}

/// How a segment gets to the next key, in words.
pub open spec fn route_text(routes: Seq<Route>, i: int) -> Seq<char> {
    if i >= routes.len() {
        "short"@
    } else {
        match routes[i] {
            Route::Turns(n) => if n == 0 {
                "short"@
            } else {
                (if n > 0 {
                    "+"@
                } else {
                    "-"@
                }) + text::decimal(text::magnitude_of(n as int)) + " turn"@ + (if n == 1 || n == -1 {
                    ""@
                } else {
                    "s"@
                })
            },
            Route::Exact(degrees) => "exact, "@ + quantity::plain_text(degrees as int, 0)
                + "\u{b0}"@,
        }
    }
}

/// The line on key `i` of a path.
pub open spec fn key_line(f: Flight, i: int) -> Seq<char> {
    let k = f.path.keys@[i];
    "["@ + text::decimal(i as nat) + "]"@ + quantity::fixed_text(
        quantity::snapped(k.yaw as int, 50_000),
        4,
        9,
    ) + quantity::fixed_text(quantity::snapped(k.pitch as int, 50_000), 4, 9)
        + quantity::fixed_text(quantity::snapped(k.roll as int, 50_000), 4, 9)
        + quantity::fixed_text(k.distance as int, 3, 11) + "   "@ + (if i < f.path.segment_count() {
        route_text(f.routes@, i)
    } else {
        Seq::empty()
    })
}

/// A section with a line on each of the first `n` keys after its rows.
pub open spec fn with_keys(s: SectionModel, f: Flight, n: nat) -> SectionModel
    decreases n,
{
    if n == 0 {
        s
    } else {
        with_keys(s, f, (n - 1) as nat).text(key_line(f, n - 1))
    }
}

/// Whether the focus of key `i` is worth a line: the first is, and so is one
/// that has moved away from it.
pub open spec fn focus_shown(f: Flight, i: int) -> bool {
    i == 0 || square_distance(f.path.keys@[i].focus, f.path.keys@[0].focus) > 10_000_000_000
}

/// A section with the foci among the first `n` keys that are worth a line
/// after its rows.
pub open spec fn with_foci(s: SectionModel, f: Flight, n: nat) -> SectionModel
    decreases n,
{
    if n == 0 {
        s
    } else {
        let before = with_foci(s, f, (n - 1) as nat);
        if focus_shown(f, n - 1) {
            before.text(
                "["@ + text::decimal((n - 1) as nat) + "] focus "@ + quantity::point_text(
                    f.path.keys@[n - 1].focus,
                ),
            )
        } else {
            before
        }
    }
}

/// How long a path lasts.
pub open spec fn duration_of(f: Flight) -> int {
    let asked = match f.path.seconds {
        Some(x) => x as int,
        None => 3 * UNIT * (if f.path.segment_count() == 0 {
            1
        } else {
            f.path.segment_count() as int
        }),
    };
    if asked < crate::path::MIN_SECONDS {
        crate::path::MIN_SECONDS as int
    } else {
        asked
    }
}

/// The section on a path that can be flown.
pub open spec fn flight_section_of(f: Flight) -> SectionModel {
    let n = f.path.keys@.len();
    let s = layout::section("path"@).text(
        text::decimal(n) + " keypoint"@ + (if n == 1 {
            ""@
        } else {
            "s"@
        }) + ", "@ + loops_text(f.loops) + ", "@ + quantity::plain_text(duration_of(f), 1) + "s"@,
    ).text("key        yaw    pitch     roll   distance   route"@);
    with_foci(with_keys(s, f, n), f, n).text(
        "route is how each segment gets to the next key: the short way, or"@,
    ).text("that plus whole extra turns"@)
}

/// The section on the camera path.
#[verifier::opaque]
pub open spec fn path_section_of(scene: Scene) -> SectionModel {
    match scene.camera_path {
        Some(f) if f.path.is_playable() => flight_section_of(f),
        _ => layout::section("path"@).text(
            "none authored (the default full-turn turntable applies)"@,
        ),
    }
}

fn push_loops(out: &mut String, loops: &Loops)
    ensures
        final(out)@ == old(out)@ + loops_text(*loops),
{
    match loops {
        Loops::Zoom(periods) => {
            out.append("zoom loop, ");
            text::push_decimal(out, *periods as u128);
            out.append(" period");
            if *periods == 1 {
                out.append("");
            } else {
                out.append("s");
            }
            out.append(" down per loop");
        },
        Loops::PingPong => out.append("ping-pong loop"),
        Loops::Other(label) => out.append(label.as_str()),
    }
    assert(out@ =~= old(out)@ + loops_text(*loops));
}

fn push_route(out: &mut String, routes: &Vec<Route>, i: usize)
    ensures
        final(out)@ == old(out)@ + route_text(routes@, i as int),
{
    if i >= routes.len() {
        out.append("short");
    } else {
        match routes[i] {
            Route::Turns(n) => {
                if n == 0 {
                    out.append("short");
                } else {
                    if n > 0 {
                        out.append("+");
                        text::push_decimal(out, n as u128);
                    } else {
                        out.append("-");
                        text::push_decimal(out, (-(n as i64)) as u128);
                    }
                    out.append(" turn");
                    if n == 1 || n == -1 {
                        out.append("");
                    } else {
                        out.append("s");
                    }
                }
            },
            Route::Exact(degrees) => {
                out.append("exact, ");
                push_plain(out, degrees, 0);
                out.append("\u{b0}");
            },
        }
    }
    assert(out@ =~= old(out)@ + route_text(routes@, i as int));
}

fn key_row(f: &Flight, i: usize) -> (s: String)
    requires
        i < f.path.keys@.len(),
    ensures
        s@ == key_line(*f, i as int),
{
    let k = f.path.keys[i];
    let mut s = text::owned("[");
    text::push_decimal(&mut s, i as u128);
    s.append("]");
    push_fixed(&mut s, snap(k.yaw, 50_000), 4, 9);
    push_fixed(&mut s, snap(k.pitch, 50_000), 4, 9);
    push_fixed(&mut s, snap(k.roll, 50_000), 4, 9);
    push_fixed(&mut s, k.distance, 3, 11);
    s.append("   ");
    if i < f.path.segments() {
        push_route(&mut s, &f.routes, i);
    }
    assert(s@ =~= key_line(*f, i as int));
    s
}

fn shows_focus(f: &Flight, i: usize) -> (b: bool)
    requires
        i < f.path.keys@.len(),
        forall|k: int| 0 <= k < f.path.keys@.len() ==> is_near((#[trigger] f.path.keys@[k]).focus),
    ensures
        b == focus_shown(*f, i as int),
{
    if i == 0 {
        return true;
    }
    let a = f.path.keys[i].focus;
    let b = f.path.keys[0].focus;
    assert(is_near(f.path.keys@[i as int].focus) && is_near(f.path.keys@[0].focus));
    let x: i128 = a.x as i128 - b.x as i128;
    let y: i128 = a.y as i128 - b.y as i128;
    let z: i128 = a.z as i128 - b.z as i128;
    let square: u128 = squared(x) + squared(y) + squared(z);
    assert(square == square_distance(a, b));
    square > 10_000_000_000
}

fn flight_section(f: &Flight) -> (s: Section)
    requires
        f.path.keys@.len() <= MAX_SEGMENTS,
        forall|k: int| 0 <= k < f.path.keys@.len() ==> is_near((#[trigger] f.path.keys@[k]).focus),
    ensures
        s@ == flight_section_of(*f),
{
    let n: usize = f.path.keys.len();
    let mut s = Section::new("path");
    let mut t = text::decimal_string(n as u128);
    t.append(" keypoint");
    if n == 1 {
        t.append("");
    } else {
        t.append("s");
    }
    t.append(", ");
    push_loops(&mut t, &f.loops);
    t.append(", ");
    push_plain(&mut t, f.path.duration(), 1);
    t.append("s");
    s.text(t);
    s.line("key        yaw    pitch     roll   distance   route");
    let ghost head = s@;
    let mut i: usize = 0;
    while i < n
        invariant
            i <= n,
            n == f.path.keys@.len(),
            s@ == with_keys(head, *f, i as nat),
        decreases n - i,
    {
        s.text(key_row(f, i));
        i += 1;
    }
    let ghost keyed = s@;
    let mut k: usize = 0;
    while k < n
        invariant
            k <= n,
            n == f.path.keys@.len(),
            forall|j: int|
                0 <= j < f.path.keys@.len() ==> is_near((#[trigger] f.path.keys@[j]).focus),
            s@ == with_foci(keyed, *f, k as nat),
        decreases n - k,
    {
        if shows_focus(f, k) {
            let mut t = text::owned("[");
            text::push_decimal(&mut t, k as u128);
            t.append("] focus ");
            let at = point(f.path.keys[k].focus);
            t.append(at.as_str());
            s.text(t);
        }
        k += 1;
    }
    s.line("route is how each segment gets to the next key: the short way, or");
    s.line("that plus whole extra turns");
    s
}

/// The keys are what path authoring is about: a count says that a path exists,
/// the keys say where it goes. The focus has a line only when it moves.
pub fn path_section(scene: &Scene) -> (s: Section)
    requires
        scene.camera_path matches Some(f) ==> {
            &&& f.path.keys@.len() <= MAX_SEGMENTS
            &&& forall|i: int|
                0 <= i < f.path.keys@.len() ==> is_near((#[trigger] f.path.keys@[i]).focus)
        },
    ensures
        s@ == path_section_of(*scene),
{
    reveal(path_section_of);
    if let Some(f) = &scene.camera_path {
        if f.path.playable() {
            return flight_section(f);
        }
    }
    let mut s = Section::new("path");
    s.line("none authored (the default full-turn turntable applies)");
    s
}

// ---- its zoom ------------------------------------------------------------

/// The whole billionths of a product of two numbers in billionths, rounded
/// down.
pub open spec fn scaled_product(a: int, b: int) -> int {
    a * b / (UNIT as int)
}

/// The rows on a zoom that was built.
pub open spec fn zoom_rows_of(scene: Scene, spec_: scene::ZoomSpec, r: Renorm) -> SectionModel {
    let s = layout::section("zoom"@).text(
        "on   map ["@ + text::decimal(r.map as nat) + "] "@ + scene::map_name(scene, r.map as int),
    ).pair("fixed point"@, quantity::point_text(r.fixed_point)).two(
        layout::labelled("scale"@, quantity::fixed_text(r.scale as int, 3, 8)),
        layout::remark(
            quantity::plain_text(r.octaves as int, 2) + " octaves/period, "@ + quantity::plain_text(
                r.twist as int,
                0,
            ) + "\u{b0} twist"@,
        ),
    ).two(
        layout::labelled("radius"@, quantity::fixed_text(spec_.radius as int, 2, 8)),
        layout::labelled("levels"@, quantity::fixed_text(spec_.levels as int, 2, 8)),
    ).two(
        layout::labelled("octave_falloff"@, quantity::fixed_text(spec_.octave_falloff as int, 2, 8)),
        layout::labelled("edge_guard"@, quantity::fixed_text(spec_.edge_guard as int, 2, 8)),
    );
    let s = match r.guard {
        Some((start, end)) => s.two(
            layout::labelled(
                "guard band"@,
                text::padded_left(
                    quantity::plain_text(start as int, 2) + "x-"@ + quantity::plain_text(
                        end as int,
                        2,
                    ) + "x"@,
                    8,
                ),
            ),
            layout::remark(
                "of the eye distance, "@ + quantity::plain_text(r.guard_width as int, 1)
                    + " octaves wide"@,
            ),
        ),
        None => s.two(
            layout::labelled("guard band"@, text::padded_left("none"@, 8)),
            layout::remark("hard outer edge"@),
        ),
    };
    s.two(
        layout::labelled("rendered"@, quantity::fixed_text(r.periods as int, 0, 8)),
        layout::remark(
            "periods ("@ + text::signed_ratio_text(
                scaled_product(r.periods as int, r.octaves as int),
                UNIT as nat,
                1,
            ) + " octaves)"@,
        ),
    )
}

/// What is noted of a zoom that was built.
pub open spec fn renorm_notes(r: Renorm) -> Seq<NoteModel> {
    (match r.guard {
        Some((start, end)) => if start < r.min_radius {
            note("zoom"@, "edge-guard ramp reaches into the view; raise zoom.radius"@)
        } else {
            no_notes()
        },
        None => note(
            "zoom"@,
            "edge_guard is 0 \u{2014} the wrap will step at the band edge"@,
        ),
    }) + (if !r.covers_the_view {
        note(
            "zoom"@,
            "band too short (radius "@ + quantity::plain_text(r.reach as int, 2)
                + "x the eye distance, needs "@ + quantity::plain_text(r.min_radius as int, 2)
                + "x) \u{2014} material blinks out at each wrap"@,
        )
    } else {
        no_notes()
    }) + (if !r.similar {
        note(
            "zoom"@,
            "map is not a similarity (defect "@ + quantity::plain_text(r.defect as int, 2)
                + ") \u{2014} the wrap will show a seam"@,
        )
    } else {
        no_notes()
    })
}

/// The name by which a flag takes map `i`: its own, or its number.
pub open spec fn zoom_reference(scene: Scene, i: int) -> Seq<char> {
    match scene.transforms@[i].name {
        Some(n) => n@,
        None => text::decimal(i as nat),
    }
}

/// What speaks against a map that could carry a zoom, if anything does.
pub open spec fn flaw_text(r: Renorm) -> Seq<char> {
    if r.defect > 20_000_000 {
        "not a similarity \u{2014} the wrap will seam"@
    } else if !r.covers_the_view {
        "band too short \u{2014} see renorm::MIN_RADIUS"@
    } else {
        Seq::empty()
    }
}

/// A message without what a per-map list has already said: what comes before
/// its first semicolon, from its "uses" on where it has one.
pub open spec fn bare_reason(e: Seq<char>) -> Seq<char> {
    match text::first_of(e, "; "@) {
        Some(i) => {
            let head = e.take(i);
            match text::first_of(head, " uses "@) {
                Some(k) => "uses "@ + head.skip(k + 6),
                None => head,
            }
        },
        None => e,
    }
}

/// A section with the verdict on map `i` after its rows.
pub open spec fn with_verdict(s: SectionModel, scene: Scene, i: int) -> SectionModel {
    let name = zoom_reference(scene, i);
    match scene.zoom_trials@[i] {
        Ok(r) => {
            let s = s.text(
                "--zoom "@ + text::padded_right(name, 14) + quantity::plain_text(
                    r.octaves as int,
                    2,
                ) + " octaves/period, "@ + quantity::fixed_text(r.twist as int, 0, 3)
                    + "\u{b0} twist"@,
            ).text(
                text::padded_right(""@, 21) + "fixed point "@ + quantity::point_text(r.fixed_point),
            );
            if flaw_text(r).len() > 0 {
                s.text(text::padded_right(""@, 21) + flaw_text(r))
            } else {
                s
            }
        },
        Err(e) => {
            let head = "["@ + text::decimal(i as nat) + "] "@ + text::padded_right(name, 14)
                + "no: "@;
            s.texts(layout::wrapped(head, head.len(), bare_reason(e@)))
        },
    }
}

/// A section with the verdicts on the first `n` maps after its rows.
pub open spec fn with_verdicts(s: SectionModel, scene: Scene, n: nat) -> SectionModel
    decreases n,
{
    if n == 0 {
        s
    } else {
        with_verdict(with_verdicts(s, scene, (n - 1) as nat), scene, n - 1)
    }
}

/// Whether one of the first `n` maps could carry a zoom.
pub open spec fn some_eligible(scene: Scene, n: nat) -> bool {
    exists|i: int| 0 <= i < n && (#[trigger] scene.zoom_trials@[i]) is Ok
}

/// The rows on a scene without a zoom.
pub open spec fn eligibility_of(scene: Scene) -> SectionModel {
    let n = scene.transforms@.len();
    let s = with_verdicts(
        layout::section("zoom"@).text("off   maps that could carry it, and why the others cannot"@),
        scene,
        n,
    );
    if some_eligible(scene, n) {
        s
    } else {
        s.text("(none \u{2014} infinite zoom needs a pure affine map that contracts"@).text(
            "on all three axes)"@,
        )
    }
}

/// The section on infinite zoom.
#[verifier::opaque]
pub open spec fn zoom_section_of(scene: Scene) -> SectionModel {
    match scene.zoom {
        None => eligibility_of(scene),
        Some(z) => match z.built {
            Ok(r) => zoom_rows_of(scene, z.spec, r),
            Err(e) => layout::section("zoom"@).text("BROKEN \u{2014} "@ + e@),
        },
    }
}

/// What is noted of the zoom.
#[verifier::opaque]
pub open spec fn zoom_notes(scene: Scene) -> Seq<NoteModel> {
    match scene.zoom {
        None => no_notes(),
        Some(z) => match z.built {
            Ok(r) => renorm_notes(r),
            Err(e) => note("zoom"@, "the zoom will not build: "@ + e@),
        },
    }
}

fn push_octaves(out: &mut String, periods: i64, octaves: i64)
    ensures
        final(out)@ == old(out)@ + text::signed_ratio_text(
            scaled_product(periods as int, octaves as int),
            UNIT as nat,
            1,
        ),
{
    assert(text::pow10(1) == 10) by {
        reveal_with_fuel(text::pow10, 2);
    }
    assert(-0x4000_0000_0000_0000_0000_0000_0000_0000 <= periods * octaves
        <= 0x4000_0000_0000_0000_0000_0000_0000_0000) by (nonlinear_arith)
        requires
            -0x8000_0000_0000_0000 <= periods <= 0x7FFF_FFFF_FFFF_FFFF,
            -0x8000_0000_0000_0000 <= octaves <= 0x7FFF_FFFF_FFFF_FFFF,
    ;
    let p: i128 = periods as i128 * octaves as i128;
    let unit: i128 = UNIT as i128;
    if p < 0 {
        let up: u128 = ((unit - 1 - p) / unit) as u128;
        assert(scaled_product(periods as int, octaves as int) == -(up as int)) by {
            let a = p as int;
            let q = -(up as int);
            let r = a - q * 1_000_000_000;
            assert(0 <= r < 1_000_000_000);
            vstd::arithmetic::div_mod::lemma_fundamental_div_mod_converse(a, 1_000_000_000, q, r);
        }
        out.push('-');
        text::push_ratio(out, up, UNIT as u128, 1);
    } else {
        text::push_ratio(out, (p / unit) as u128, UNIT as u128, 1);
    }
    assert(out@ =~= old(out)@ + text::signed_ratio_text(
        scaled_product(periods as int, octaves as int),
        UNIT as nat,
        1,
    ));
}

fn add_guard(s: &mut Section, r: &Renorm)
    ensures
        final(s)@ == (match r.guard {
            Some((start, end)) => old(s)@.two(
                layout::labelled(
                    "guard band"@,
                    text::padded_left(
                        quantity::plain_text(start as int, 2) + "x-"@ + quantity::plain_text(
                            end as int,
                            2,
                        ) + "x"@,
                        8,
                    ),
                ),
                layout::remark(
                    "of the eye distance, "@ + quantity::plain_text(r.guard_width as int, 1)
                        + " octaves wide"@,
                ),
            ),
            None => old(s)@.two(
                layout::labelled("guard band"@, text::padded_left("none"@, 8)),
                layout::remark("hard outer edge"@),
            ),
        }),
{
    match r.guard {
        Some((start, end)) => {
            let mut span = String::new();
            push_plain(&mut span, start, 2);
            span.append("x-");
            push_plain(&mut span, end, 2);
            span.append("x");
            assert(span@ =~= quantity::plain_text(start as int, 2) + "x-"@ + quantity::plain_text(
                end as int,
                2,
            ) + "x"@);
            let mut wide = text::owned("of the eye distance, ");
            push_plain(&mut wide, r.guard_width, 1);
            wide.append(" octaves wide");
            s.two(Cell::new("guard band", word(span.as_str())), Cell::note(wide));
        },
        None => {
            s.two(Cell::new("guard band", word("none")), Cell::note(text::owned("hard outer edge")));
        },
    }
}

fn zoom_rows(scene: &Scene, spec_: &scene::ZoomSpec, r: &Renorm) -> (s: Section)
    ensures
        s@ == zoom_rows_of(*scene, *spec_, *r),
{
    let mut s = Section::new("zoom");
    let name = name_of(scene, r.map);
    let mut on = text::owned("on   map [");
    text::push_decimal(&mut on, r.map as u128);
    on.append("] ");
    on.append(name.as_str());
    s.text(on);
    s.pair("fixed point", point(r.fixed_point));
    let mut turn = String::new();
    push_plain(&mut turn, r.octaves, 2);
    turn.append(" octaves/period, ");
    push_plain(&mut turn, r.twist, 0);
    turn.append("\u{b0} twist");
    assert(turn@ =~= quantity::plain_text(r.octaves as int, 2) + " octaves/period, "@
        + quantity::plain_text(r.twist as int, 0) + "\u{b0} twist"@);
    s.two(Cell::new("scale", length(r.scale)), Cell::note(turn));
    s.two(Cell::new("radius", amount(spec_.radius)), Cell::new("levels", amount(spec_.levels)));
    s.two(
        Cell::new("octave_falloff", amount(spec_.octave_falloff)),
        Cell::new("edge_guard", amount(spec_.edge_guard)),
    );
    add_guard(&mut s, r);
    let mut deep = text::owned("periods (");
    push_octaves(&mut deep, r.periods, r.octaves);
    deep.append(" octaves)");
    s.two(Cell::new("rendered", quantity::fixed(r.periods, 0, 8)), Cell::note(deep));
    s
}

fn note_renorm(r: &Renorm, notes: &mut Notes)
    ensures
        final(notes)@ == old(notes)@ + renorm_notes(*r),
{
    match r.guard {
        Some((start, _)) => {
            if start < r.min_radius {
                notes.say("zoom", "edge-guard ramp reaches into the view; raise zoom.radius");
            }
        },
        None => {
            notes.say("zoom", "edge_guard is 0 \u{2014} the wrap will step at the band edge");
        },
    }
    if !r.covers_the_view {
        let mut t = text::owned("band too short (radius ");
        push_plain(&mut t, r.reach, 2);
        t.append("x the eye distance, needs ");
        push_plain(&mut t, r.min_radius, 2);
        t.append("x) \u{2014} material blinks out at each wrap");
        notes.add("zoom", t);
    }
    if !r.similar {
        let mut t = text::owned("map is not a similarity (defect ");
        push_plain(&mut t, r.defect, 2);
        t.append(") \u{2014} the wrap will show a seam");
        notes.add("zoom", t);
    }
    assert(notes@ =~= old(notes)@ + renorm_notes(*r));
}

/// What a message says beyond what a per-map list has already said.
pub fn strip_prefix(e: &str) -> (s: String)
    ensures
        s@ == bare_reason(e@),
{
    proof {
        reveal_strlit("; ");
        reveal_strlit(" uses ");
    }
    let v = text::chars_of(e);
    let n: usize = v.len();
    assert(v@.subrange(0, n as int) =~= e@);
    match text::find_text(&v, 0, n, "; ") {
        Some(i) => {
            assert(v@.subrange(0, i as int) =~= e@.take(i as int));
            match text::find_text(&v, 0, i, " uses ") {
                Some(k) => {
                    let mut s = text::owned("uses ");
                    text::push_range(&mut s, &v, k + 6, i);
                    assert(v@.subrange(k + 6, i as int) =~= e@.take(i as int).skip(k + 6));
                    s
                },
                None => text::string_of_range(&v, 0, i),
            }
        },
        None => text::owned(e),
    }
}

fn reference_of(scene: &Scene, i: usize) -> (s: String)
    requires
        i < scene.transforms@.len(),
    ensures
        s@ == zoom_reference(*scene, i as int),
{
    match &scene.transforms[i].name {
        Some(n) => text::owned(n.as_str()),
        None => text::decimal_string(i as u128),
    }
}

fn add_verdict(s: &mut Section, scene: &Scene, i: usize)
    requires
        i < scene.transforms@.len(),
        scene.zoom_trials@.len() == scene.transforms@.len(),
    ensures
        final(s)@ == with_verdict(old(s)@, *scene, i as int),
{
    let name = reference_of(scene, i);
    match &scene.zoom_trials[i] {
        Ok(r) => {
            let mut t = text::owned("--zoom ");
            text::push_padded_right(&mut t, name.as_str(), 14);
            push_plain(&mut t, r.octaves, 2);
            t.append(" octaves/period, ");
            push_fixed(&mut t, r.twist, 0, 3);
            t.append("\u{b0} twist");
            s.text(t);
            let mut f = String::new();
            text::push_padded_right(&mut f, "", 21);
            f.append("fixed point ");
            let at = point(r.fixed_point);
            f.append(at.as_str());
            assert(f@ =~= text::padded_right(""@, 21) + "fixed point "@ + quantity::point_text(
                r.fixed_point,
            ));
            s.text(f);
            proof {
                reveal_strlit("not a similarity \u{2014} the wrap will seam");
                reveal_strlit("band too short \u{2014} see renorm::MIN_RADIUS");
            }
            if r.defect > 20_000_000 {
                let mut w = String::new();
                text::push_padded_right(&mut w, "", 21);
                w.append("not a similarity \u{2014} the wrap will seam");
                assert(w@ =~= text::padded_right(""@, 21) + flaw_text(*r));
                s.text(w);
            } else if !r.covers_the_view {
                let mut w = String::new();
                text::push_padded_right(&mut w, "", 21);
                w.append("band too short \u{2014} see renorm::MIN_RADIUS");
                assert(w@ =~= text::padded_right(""@, 21) + flaw_text(*r));
                s.text(w);
            }
        },
        Err(e) => {
            let mut head = text::owned("[");
            text::push_decimal(&mut head, i as u128);
            head.append("] ");
            text::push_padded_right(&mut head, name.as_str(), 14);
            head.append("no: ");
            let hang: usize = text::char_count(head.as_str());
            let reason = strip_prefix(e.as_str());
            s.texts(wrap(head.as_str(), hang, reason.as_str()));
        },
    }
}

fn zoom_eligibility(scene: &Scene) -> (s: Section)
    requires
        scene.zoom_trials@.len() == scene.transforms@.len(),
    ensures
        s@ == eligibility_of(*scene),
{
    let n: usize = scene.transforms.len();
    let mut s = Section::new("zoom");
    s.line("off   maps that could carry it, and why the others cannot");
    let ghost head = s@;
    let mut any = false;
    let mut i: usize = 0;
    while i < n
        invariant
            i <= n,
            n == scene.transforms@.len(),
            scene.zoom_trials@.len() == n,
            any == some_eligible(*scene, i as nat),
            s@ == with_verdicts(head, *scene, i as nat),
        decreases n - i,
    {
        add_verdict(&mut s, scene, i);
        if scene.zoom_trials[i].is_ok() {
            any = true;
            assert(scene.zoom_trials@[i as int] is Ok);
        }
        i += 1;
        assert(any == some_eligible(*scene, i as nat)) by {
            if some_eligible(*scene, i as nat) {
                let k = choose|k: int|
                    0 <= k < i && (#[trigger] scene.zoom_trials@[k]) is Ok;
                if k < i - 1 {
                    assert(some_eligible(*scene, (i - 1) as nat));
                }
            }
        }
    }
    if !any {
        s.line("(none \u{2014} infinite zoom needs a pure affine map that contracts");
        s.line("on all three axes)");
    }
    s
}

/// The zoom that is on, or what is broken about it, or which maps could carry
/// one: every eligible map comes out as a command that can be run.
pub fn zoom_section(scene: &Scene, notes: &mut Notes) -> (s: Section)
    requires
        scene.zoom_trials@.len() == scene.transforms@.len(),
    ensures
        s@ == zoom_section_of(*scene),
        final(notes)@ == old(notes)@ + zoom_notes(*scene),
{
    reveal(zoom_section_of);
    reveal(zoom_notes);
    assert(old(notes)@ + no_notes() =~= old(notes)@);
    match &scene.zoom {
        None => zoom_eligibility(scene),
        Some(z) => match &z.built {
            Ok(r) => {
                let s = zoom_rows(scene, &z.spec, r);
                note_renorm(r, notes);
                s
            },
            Err(e) => {
                let mut s = Section::new("zoom");
                let mut t = text::owned("BROKEN \u{2014} ");
                t.append(e.as_str());
                s.text(t);
                let mut w = text::owned("the zoom will not build: ");
                w.append(e.as_str());
                notes.add("zoom", w);
                s
            },
        },
    }
}

// ---- the report ----------------------------------------------------------

/// Everything that is noted of a subject, in the order it is found.
pub open spec fn all_notes(subject: Subject) -> Seq<NoteModel> {
    layer_notes(subject) + detail_notes(subject)
}

/// The sections of a report: what it is, its notes, what was layered over it
/// if anything was, and then the detail.
pub open spec fn sections_of(subject: Subject) -> Seq<SectionModel> {
    seq![scene_section_of(subject), notes_section_of(all_notes(subject))] + layers_of(subject)
        + details_of(subject)
}

/// The tags are short.
proof fn tags_are_short(subject: Subject)
    ensures
        widest_tag(all_notes(subject)) <= 6,
{
    reveal(view_notes);
    reveal(shape_notes);
    reveal(colour_notes);
    reveal(zoom_notes);
    reveal_strlit("view");
    reveal_strlit("shape");
    reveal_strlit("render");
    reveal_strlit("camera");
    reveal_strlit("maps");
    reveal_strlit("colour");
    reveal_strlit("zoom");
    let scene = *subject.scene;
    assert forall|i: int| 0 <= i < all_notes(subject).len() implies (#[trigger] all_notes(
        subject,
    )[i]).tag.len() <= 6 by {
        maps_tags_are_short(scene, scene.transforms@.len());
        let a = layer_notes(subject);
        let b = shape_notes(scene, subject.framing());
        let c = maps_notes(scene, scene.transforms@.len());
        let d = colour_notes(scene);
        let e = zoom_notes(scene);
        assert(forall|k: int| 0 <= k < a.len() ==> (#[trigger] a[k]).tag.len() <= 6);
        assert(forall|k: int| 0 <= k < b.len() ==> (#[trigger] b[k]).tag.len() <= 6);
        assert(forall|k: int| 0 <= k < d.len() ==> (#[trigger] d[k]).tag.len() <= 6);
        assert(forall|k: int| 0 <= k < e.len() ==> (#[trigger] e[k]).tag.len() <= 6);
        let bc = b + c;
        let bcd = bc + d;
        assert(detail_notes(subject) == bcd + e);
        assert(all_notes(subject) == a + (bcd + e));
    }
    widest_tag_bound(all_notes(subject), 6);
}

proof fn maps_tags_are_short(scene: Scene, n: nat)
    ensures
        forall|k: int|
            0 <= k < maps_notes(scene, n).len() ==> (#[trigger] maps_notes(scene, n)[k]).tag.len()
                <= 6,
    decreases n,
{
    reveal_strlit("maps");
    if n > 0 {
        maps_tags_are_short(scene, (n - 1) as nat);
        let a = maps_notes(scene, (n - 1) as nat);
        let b = map_notes(scene, n - 1);
        assert(forall|k: int| 0 <= k < b.len() ==> (#[trigger] b[k]).tag.len() <= 6);
        assert(maps_notes(scene, n) == a + b);
    }
}

proof fn widest_tag_bound(notes: Seq<NoteModel>, most: nat)
    requires
        forall|k: int| 0 <= k < notes.len() ==> (#[trigger] notes[k]).tag.len() <= most,
    ensures
        widest_tag(notes) <= most,
    decreases notes.len(),
{
    if notes.len() > 0 {
        let t = notes.drop_last();
        assert forall|k: int| 0 <= k < t.len() implies (#[trigger] t[k]).tag.len() <= most by {
            assert(t[k] == notes[k]);
        }
        widest_tag_bound(t, most);
    }
}

/// The sections on what was layered over a scene.
pub open spec fn layers_of(subject: Subject) -> Seq<SectionModel> {
    (if subject.set@.len() > 0 {
        seq![set_section_of(subject)]
    } else {
        Seq::empty()
    }) + (match subject.view {
        Some(v) => seq![view_section_of(v.0@, *v.1, *subject.scene)],
        None => Seq::empty(),
    })
}

/// What is noted of what was layered over a scene.
pub open spec fn layer_notes(subject: Subject) -> Seq<NoteModel> {
    match subject.view {
        Some(v) => view_notes(*v.1, *subject.scene),
        None => no_notes(),
    }
}

fn layers(subject: &Subject, notes: &mut Notes) -> (v: Vec<Section>)
    ensures
        layout::section_views(v@) == layers_of(*subject),
        final(notes)@ == old(notes)@ + layer_notes(*subject),
{
    let mut v: Vec<Section> = Vec::new();
    assert(old(notes)@ + no_notes() =~= old(notes)@);
    if subject.set.len() > 0 {
        v.push(set_section(subject));
    }
    if let Some((path, view)) = subject.view {
        v.push(view_section(path, view, subject.scene, notes));
    }
    assert(layout::section_views(v@) =~= layers_of(*subject));
    v
}

/// The sections of detail.
pub open spec fn details_of(subject: Subject) -> Seq<SectionModel> {
    let scene = *subject.scene;
    seq![
        shape_section_of(scene),
        maps_section_of(scene),
        render_section_of(scene),
        colour_section_of(scene),
        camera_section_of(subject),
        path_section_of(scene),
        zoom_section_of(scene),
    ]
}

/// What is noted of the detail.
pub open spec fn detail_notes(subject: Subject) -> Seq<NoteModel> {
    let scene = *subject.scene;
    shape_notes(scene, subject.framing()) + maps_notes(scene, scene.transforms@.len())
        + colour_notes(scene) + zoom_notes(scene)
}

fn details(subject: &Subject, framing: &OrbitCamera, notes: &mut Notes) -> (v: Vec<Section>)
    requires
        subject.is_measurable(),
        *framing == subject.framing(),
    ensures
        layout::section_views(v@) == details_of(*subject),
        final(notes)@ == old(notes)@ + detail_notes(*subject),
{
    let scene = subject.scene;
    let mut v: Vec<Section> = Vec::new();
    v.push(shape_section(scene, framing, notes));
    v.push(maps_section(scene, notes));
    v.push(render_section(scene));
    v.push(colour_section(scene, notes));
    v.push(camera_section(subject, framing));
    v.push(path_section(scene));
    v.push(zoom_section(scene, notes));
    assert(notes@ =~= old(notes)@ + detail_notes(*subject));
    assert(layout::section_views(v@) =~= details_of(*subject));
    v
}

fn build(subject: &Subject) -> (r: Report)
    requires
        subject.is_measurable(),
    ensures
        layout::section_views(r.sections@) == sections_of(*subject),
{
    let view = match subject.view {
        Some(v) => Some(v.1),
        None => None,
    };
    let (framing, _) = effective_camera_folded(
        view,
        subject.scene,
        &subject.camera,
        subject.fold,
    );
    assert(framing == subject.framing());
    let mut notes = Notes::new();
    let mut over = layers(subject, &mut notes);
    let mut rest = details(subject, &framing, &mut notes);
    assert(notes@ =~= all_notes(*subject));
    proof {
        tags_are_short(*subject);
    }
    let mut sections: Vec<Section> = Vec::new();
    sections.push(scene_section(subject));
    sections.push(notes_section(&notes));
    let ghost first = sections@;
    let ghost (a, b) = (over@, rest@);
    sections.append(&mut over);
    sections.append(&mut rest);
    assert(sections@ =~= first + a + b);
    assert(layout::section_views(sections@) =~= layout::section_views(first)
        + layout::section_views(a) + layout::section_views(b));
    assert(layout::section_views(first) =~= seq![
        scene_section_of(*subject),
        notes_section_of(all_notes(*subject)),
    ]);
    Report { sections }
}

/// Everything a report prints, as one text.
pub fn report(subject: &Subject) -> (s: String)
    requires
        subject.is_measurable(),
    ensures
        s@ == layout::report_text(sections_of(*subject), subject.color),
{
    let r = build(subject);
    r.to_text(subject.color)
}

/// The notes are printed second, right after what the scene is, however much
/// else there is to say.
pub proof fn notes_come_second(subject: Subject)
    ensures
        sections_of(subject).len() >= 9,
        sections_of(subject)[0] == scene_section_of(subject),
        sections_of(subject)[1] == notes_section_of(all_notes(subject)),
{
}

/// Nothing wrong is one line, and never a missing block.
pub proof fn no_notes_is_one_line(subject: Subject)
    requires
        all_notes(subject).len() == 0,
    ensures
        notes_section_of(all_notes(subject)) == layout::section("notes"@).text("none"@),
{
    reveal(notes_section_of);
}

/// Every map is four lines whatever it contains: the header, four lines a map,
/// and the footnotes.
pub proof fn a_map_is_four_lines(scene: Scene)
    ensures
        maps_section_of(scene).rows.len() == 4 + 4 * scene.transforms@.len(),
{
    reveal(maps_section_of);
    let n = scene.transforms@.len();
    let s = layout::section("maps"@).text(
        text::decimal(n) + "   share of the walk, contraction, colour as rendered"@,
    );
    with_maps_rows(
        s,
        scene,
        total_weight(scene, n),
        held(widest_name(scene, n), 6, 14),
        held(widest_scale(scene, n), 5, 22),
        n,
    );
}

proof fn with_maps_rows(
    s: SectionModel,
    scene: Scene,
    total: int,
    names: nat,
    scales: nat,
    n: nat,
)
    ensures
        with_maps(s, scene, total, names, scales, n).rows.len() == s.rows.len() + 4 * n,
    decreases n,
{
    if n > 0 {
        with_maps_rows(s, scene, total, names, scales, (n - 1) as nat);
    }
}

/// A view's block has the same rows whatever the view sets: only an old view,
/// with an eye offset or without an amount of haze, has more.
pub proof fn a_view_has_a_fixed_shape(path: Seq<char>, v: SavedView, scene: Scene)
    ensures
        view_section_of(path, v, scene).rows.len() == 16 + (if v.offset.x != 0 || v.offset.y != 0
            || v.offset.z != 0 {
            1int
        } else {
            0
        }) + (if v.haze is None {
            2int
        } else {
            0
        }),
{
    reveal(view_section_of);
}

proof fn texts_keep_the_key(s: SectionModel, lines: Seq<Seq<char>>)
    ensures
        s.texts(lines).key == s.key,
    decreases lines.len(),
{
    if lines.len() > 0 {
        texts_keep_the_key(s, lines.drop_last());
    }
}

proof fn notes_keep_the_key(s: SectionModel, notes: Seq<NoteModel>, width: nat, n: nat)
    ensures
        with_notes(s, notes, width, n).key == s.key,
    decreases n,
{
    if n > 0 {
        notes_keep_the_key(s, notes, width, (n - 1) as nat);
        texts_keep_the_key(
            with_notes(s, notes, width, (n - 1) as nat),
            layout::wrapped(
                text::padded_right(notes[n - 1].tag, width),
                width,
                notes[n - 1].text,
            ),
        );
    }
}

proof fn overrides_keep_the_key(s: SectionModel, set: Seq<Applied>, width: nat, n: nat)
    ensures
        with_overrides(s, set, width, n).key == s.key,
    decreases n,
{
    if n > 0 {
        overrides_keep_the_key(s, set, width, (n - 1) as nat);
    }
}

proof fn maps_keep_the_key(
    s: SectionModel,
    scene: Scene,
    total: int,
    names: nat,
    scales: nat,
    n: nat,
)
    ensures
        with_maps(s, scene, total, names, scales, n).key == s.key,
    decreases n,
{
    if n > 0 {
        maps_keep_the_key(s, scene, total, names, scales, (n - 1) as nat);
    }
}

proof fn ramps_keep_the_key(s: SectionModel, label: Seq<char>, colors: Seq<Color>, n: nat)
    ensures
        with_ramp(s, label, colors, n).key == s.key,
    decreases n,
{
    if n > 0 {
        ramps_keep_the_key(s, label, colors, (n - 1) as nat);
    }
}

proof fn flights_keep_the_key(s: SectionModel, f: Flight, n: nat)
    ensures
        with_keys(s, f, n).key == s.key,
        with_foci(s, f, n).key == s.key,
    decreases n,
{
    if n > 0 {
        flights_keep_the_key(s, f, (n - 1) as nat);
    }
}

proof fn verdict_keeps_the_key(s: SectionModel, scene: Scene, i: int)
    ensures
        with_verdict(s, scene, i).key == s.key,
{
    if let Err(e) = scene.zoom_trials@[i] {
        let head = "["@ + text::decimal(i as nat) + "] "@ + text::padded_right(
            zoom_reference(scene, i),
            14,
        ) + "no: "@;
        texts_keep_the_key(s, layout::wrapped(head, head.len(), bare_reason(e@)));
    }
}

proof fn verdicts_keep_the_key(s: SectionModel, scene: Scene, n: nat)
    ensures
        with_verdicts(s, scene, n).key == s.key,
    decreases n,
{
    if n > 0 {
        verdicts_keep_the_key(s, scene, (n - 1) as nat);
        verdict_keeps_the_key(with_verdicts(s, scene, (n - 1) as nat), scene, n - 1);
    }
}

proof fn first_keys(subject: Subject)
    ensures
        scene_section_of(subject).key == "scene"@,
        notes_section_of(all_notes(subject)).key == "notes"@,
        set_section_of(subject).key == "set"@,
{
    reveal(scene_section_of);
    reveal(notes_section_of);
    reveal(set_section_of);
    texts_keep_the_key(
        layout::section("scene"@).text(
            layout::spread_text(subject.scene.name@, subject.source@),
        ),
        layout::wrapped(""@, 0, text::joined(facts(*subject.scene), ", "@)),
    );
    let notes = all_notes(subject);
    notes_keep_the_key(
        layout::section("notes"@).text(text::decimal(notes.len())),
        notes,
        widest_tag(notes) + 2,
        notes.len(),
    );
    overrides_keep_the_key(
        layout::section("set"@).text(
            text::decimal(subject.set@.len()) + " override"@ + (if subject.set@.len() == 1 {
                ""@
            } else {
                "s"@
            }) + " applied to "@ + subject.source@,
        ),
        subject.set@,
        widest_value(subject.set@),
        subject.set@.len(),
    );
}

proof fn maps_key(scene: Scene)
    ensures
        maps_section_of(scene).key == "maps"@,
{
    reveal(maps_section_of);
    let n = scene.transforms@.len();
    maps_keep_the_key(
        layout::section("maps"@).text(
            text::decimal(n) + "   share of the walk, contraction, colour as rendered"@,
        ),
        scene,
        total_weight(scene, n),
        held(widest_name(scene, n), 6, 14),
        held(widest_scale(scene, n), 5, 22),
        n,
    );
}

proof fn colour_key(scene: Scene)
    ensures
        colour_section_of(scene).key == "colour"@,
{
    reveal(colour_section_of);
    let shown = shown_colors(scene);
    let n = ((shown.len() + PER_LINE - 1) / PER_LINE as int) as nat;
    let s = layout::section("colour"@).two(
        layout::labelled("mode"@, text::padded_left(scene.color_mode.name_text(), 8)),
        layout::remark(mode_text(scene)),
    ).three(
        layout::labelled("speed"@, quantity::fixed_text(scene.color_speed as int, 2, 8)),
        layout::labelled("falloff"@, quantity::fixed_text(scene.color_falloff as int, 2, 8)),
        layout::labelled("contrast"@, quantity::fixed_text(scene.color_contrast as int, 2, 8)),
    ).two(
        layout::labelled(
            "luminance"@,
            quantity::fixed_text(scene.gradient.mean_luminance as int, 2, 8),
        ),
        layout::labelled("swing"@, quantity::fixed_text(scene.gradient.swing as int, 2, 8)),
    );
    ramps_keep_the_key(s, "colours"@, shown, n);
    ramps_keep_the_key(s, "ramp"@, shown, n);
}

proof fn path_key(scene: Scene)
    ensures
        path_section_of(scene).key == "path"@,
{
    reveal(path_section_of);
    if let Some(f) = scene.camera_path {
        let n = f.path.keys@.len();
        let s = layout::section("path"@).text(
            text::decimal(n) + " keypoint"@ + (if n == 1 {
                ""@
            } else {
                "s"@
            }) + ", "@ + loops_text(f.loops) + ", "@ + quantity::plain_text(duration_of(f), 1)
                + "s"@,
        ).text("key        yaw    pitch     roll   distance   route"@);
        flights_keep_the_key(s, f, n);
        flights_keep_the_key(with_keys(s, f, n), f, n);
    }
}

proof fn zoom_key(scene: Scene)
    ensures
        zoom_section_of(scene).key == "zoom"@,
{
    reveal(zoom_section_of);
    verdicts_keep_the_key(
        layout::section("zoom"@).text("off   maps that could carry it, and why the others cannot"@),
        scene,
        scene.transforms@.len(),
    );
}

proof fn other_keys(subject: Subject)
    ensures
        shape_section_of(*subject.scene).key == "shape"@,
        render_section_of(*subject.scene).key == "render"@,
        camera_section_of(subject).key == "camera"@,
        subject.view matches Some(v) ==> view_section_of(v.0@, *v.1, *subject.scene).key
            == "view"@,
{
    reveal(shape_section_of);
    reveal(render_section_of);
    reveal(camera_section_of);
    reveal(view_section_of);
}

/// The sections of a report have keywords that fit the gutter.
proof fn keys_are_short(subject: Subject)
    ensures
        forall|i: int|
            0 <= i < sections_of(subject).len() ==> (#[trigger] sections_of(subject)[i]).key.len()
                <= GUTTER,
{
    first_keys(subject);
    other_keys(subject);
    maps_key(*subject.scene);
    colour_key(*subject.scene);
    path_key(*subject.scene);
    zoom_key(*subject.scene);
    reveal_strlit("scene");
    reveal_strlit("notes");
    reveal_strlit("set");
    reveal_strlit("view");
    reveal_strlit("shape");
    reveal_strlit("maps");
    reveal_strlit("render");
    reveal_strlit("colour");
    reveal_strlit("camera");
    reveal_strlit("path");
    reveal_strlit("zoom");
}

/// What a report says does not depend on whether it is painted.
proof fn same_sections(a: Subject, b: Subject)
    requires
        b == (Subject { color: b.color, ..a }),
    ensures
        sections_of(a) == sections_of(b),
{
    reveal(scene_section_of);
    reveal(set_section_of);
    reveal(camera_section_of);
    assert(a.framing() == b.framing());
    assert(scene_section_of(a) == scene_section_of(b));
    assert(set_section_of(a) == set_section_of(b));
    assert(camera_section_of(a) == camera_section_of(b));
    assert(all_notes(a) == all_notes(b));
    assert(layers_of(a) == layers_of(b));
    assert(details_of(a) == details_of(b));
}

/// The margin is hard: a report without colour has no line that runs
/// past it, whatever the scene, its name and author, where it was
/// read from, and what was layered over it.
pub proof fn a_plain_report_fits_the_margin(subject: Subject)
    ensures
        layout::lines_fit(layout::report_text(sections_of(subject), false)),
{
    keys_are_short(subject);
    layout::every_line_fits(sections_of(subject));
}

/// Colour adds to the page and replaces no part of it: everything that a
/// report prints without colour stands in the coloured one, in order.
pub proof fn a_coloured_report_only_adds(subject: Subject)
    ensures
        sections_of(Subject { color: true, ..subject }) == sections_of(
            Subject { color: false, ..subject },
        ),
        layout::is_within(
            layout::report_text(sections_of(Subject { color: false, ..subject }), false),
            layout::report_text(sections_of(Subject { color: true, ..subject }), true),
        ),
{
    let (a, b) = (Subject { color: false, ..subject }, Subject { color: true, ..subject });
    same_sections(a, b);
    layout::colour_only_adds(sections_of(a));
}

// ---- what is remarked on -----------------------------------------------------

/// A framing is remarked on where it stands more than twice as far off as fills
/// the frame, or not half as far.
pub proof fn a_framing_that_misses_is_noted(distance: int, radius: int)
    ensures
        ({
            let filling = filling_distance(radius);
            let n = distance_notes(distance, filling).len();
            &&& 8_000_000_000 <= filling <= 120_000_000_000
            &&& 8_000_000_000 <= 24 * radius <= 120_000_000_000 ==> filling == 24 * radius
            &&& 24 * radius < 8_000_000_000 ==> filling == 8_000_000_000
            &&& 24 * radius > 120_000_000_000 ==> filling == 120_000_000_000
            &&& n <= 1
            &&& n == 1 <==> distance >= 0 && (5 * distance > filling || 20 * distance < filling)
        }),
{
}

/// Points are remarked on where they are larger than a pixel, and a focus where
/// it is further from the centre than the form reaches.
pub proof fn coarse_points_and_a_far_focus_are_noted(
    point_size: int,
    filling: int,
    focus: Point,
    m: Measured,
)
    ensures
        size_notes(point_size, filling).len() == if 4800 * point_size > filling {
            1int
        } else {
            0
        },
        focus_notes(focus, m).len() == if distance_between(focus, m.center) > m.radius {
            1int
        } else {
            0
        },
        ({
            let d = distance_between(focus, m.center);
            let (x, y, z) = (focus.x - m.center.x, focus.y - m.center.y, focus.z - m.center.z);
            d * d <= x * x + y * y + z * z < (d + 1) * (d + 1)
        }),
{
    let (x, y, z) = (focus.x - m.center.x, focus.y - m.center.y, focus.z - m.center.z);
    assert(x * x >= 0 && y * y >= 0 && z * z >= 0) by (nonlinear_arith);
    num::root_is_whole_part(square_distance(focus, m.center));
}

/// A map is remarked on where it does not contract, and where it is never
/// chosen.
pub proof fn a_map_is_noted_for_each_fault(scene: Scene, i: int)
    requires
        0 <= i < scene.transforms@.len(),
    ensures
        ({
            let t = scene.transforms@[i];
            map_notes(scene, i).len() == (if t.contraction >= 1_000_000_000 || t.contraction
                <= -1_000_000_000 {
                1int
            } else {
                0
            }) + if t.weight <= 0 {
                1int
            } else {
                0
            }
        }),
{
}

/// Colours are remarked on where the gradient hardly swings, where a palette goes
/// unused, and where the contrast leaves part of the ramp out.
pub proof fn colours_are_noted_for_each_fault(scene: Scene)
    ensures
        colour_notes(scene).len() == (if scene.gradient.swing < 150_000_000 {
            1int
        } else {
            0
        }) + (if scene.color_mode is Transforms && scene.has_palette {
            1int
        } else {
            0
        }) + if scene.color_contrast > 1_500_000_000 && !(scene.color_mode is Mix) {
            1int
        } else {
            0
        },
{
    reveal(colour_notes);
}

/// A zoom is remarked on for its guard, for a band that is too short and for a
/// map that is no similarity.
pub proof fn a_zoom_is_noted_for_each_fault(r: Renorm)
    ensures
        renorm_notes(r).len() == (match r.guard {
            Some(g) => if g.0 < r.min_radius {
                1int
            } else {
                0
            },
            None => 1int,
        }) + (if r.covers_the_view {
            0int
        } else {
            1
        }) + if r.similar {
            0int
        } else {
            1
        },
        r.defect > 20_000_000 || !r.covers_the_view <==> flaw_text(r).len() > 0,
{
    reveal_strlit("not a similarity \u{2014} the wrap will seam");
    reveal_strlit("band too short \u{2014} see renorm::MIN_RADIUS");
}

/// A ramp is shown six colours to a line, in order, every one of them.
pub proof fn a_ramp_is_six_to_a_line(colors: Seq<Color>, k: int, j: int)
    requires
        0 <= k,
        0 <= j < 6,
        6 * k + j < colors.len(),
    ensures
        ramp_row(colors, k).len() <= 6,
        j < ramp_row(colors, k).len(),
        ramp_row(colors, k)[j] == colors[6 * k + j],
        k < (colors.len() + PER_LINE - 1) / PER_LINE as int,
        6 * (k + 1) < colors.len() ==> ramp_row(colors, k).len() == 6,
{
}

/// A flight takes as long as it says, else three seconds for every segment, and
/// no less than the shortest.
pub proof fn a_flight_lasts_three_seconds_a_segment(f: Flight)
    ensures
        f.path.seconds is None && f.path.segment_count() > 0 ==> duration_of(f) == 3_000_000_000
            * f.path.segment_count() || duration_of(f) == crate::path::MIN_SECONDS,
        f.path.seconds matches Some(s) ==> (s >= crate::path::MIN_SECONDS ==> duration_of(f) == s),
        duration_of(f) >= crate::path::MIN_SECONDS,
        f.path.seconds is None ==> duration_of(f) >= 3_000_000_000,
{
}

/// The focus of a key is shown where it is more than a ten-thousandth from the
/// first one's, and the first one's always is.
pub proof fn a_focus_is_shown_where_it_moves(f: Flight, i: int)
    requires
        0 <= i < f.path.keys@.len(),
    ensures
        focus_shown(f, 0),
        i > 0 ==> (focus_shown(f, i) <==> ({
            let (a, b) = (f.path.keys@[i].focus, f.path.keys@[0].focus);
            let (x, y, z) = (a.x - b.x, a.y - b.y, a.z - b.z);
            x * x + y * y + z * z > 100_000 * 100_000
        })),
{
    let (a, b) = (f.path.keys@[i].focus, f.path.keys@[0].focus);
    let (x, y, z) = (a.x - b.x, a.y - b.y, a.z - b.z);
    assert(x * x >= 0 && y * y >= 0 && z * z >= 0) by (nonlinear_arith);
}

/// The weights of a scene's maps are added up one by one.
pub proof fn weights_add_up(scene: Scene, n: nat)
    requires
        n < scene.transforms@.len(),
    ensures
        total_weight(scene, 0) == 0,
        total_weight(scene, n + 1) - total_weight(scene, n) == scene.transforms@[n as int].weight,
{
}

// ---- what stands under each label ----------------------------------------------

/// Whether a cell of a section has a label and a value.
pub open spec fn is_cell(
    s: SectionModel,
    row: int,
    col: int,
    label: Seq<char>,
    value: Seq<char>,
) -> bool {
    &&& 0 <= row < s.rows.len()
    &&& s.rows[row] matches layout::RowModel::Cells(cells) && 0 <= col < cells.len()
        && cells[col].label == label && cells[col].value == value
}

/// Whether a section shows a value under a label.
pub open spec fn shows(s: SectionModel, label: Seq<char>, value: Seq<char>) -> bool {
    exists|row: int, col: int| #[trigger] is_cell(s, row, col, label, value)
}

/// Whether a section shows a view's number with the scene's beside it.
pub open spec fn shows_both(
    s: SectionModel,
    label: Seq<char>,
    value: Seq<char>,
    scenes: Seq<char>,
) -> bool {
    exists|row: int| #[trigger]
        is_cell(s, row, 0, label, value) && is_cell(s, row, 1, "scene"@, scenes)
}

/// The framing is told number by number, each under its own name.
pub proof fn a_framing_is_told_by_name(subject: Subject)
    ensures
        ({
            let (s, c) = (camera_section_of(subject), subject.framing());
            &&& shows(s, "yaw"@, quantity::angle_text(c.yaw as int))
            &&& shows(s, "pitch"@, quantity::angle_text(c.pitch as int))
            &&& shows(s, "roll"@, quantity::angle_text(c.roll as int))
            &&& shows(s, "distance"@, quantity::fixed_text(c.distance as int, 3, 8))
            &&& shows(s, "focus"@, quantity::point_text(c.focus))
        }),
{
    reveal(camera_section_of);
    let (s, c) = (camera_section_of(subject), subject.framing());
    assert(is_cell(s, 0, 0, "yaw"@, quantity::angle_text(c.yaw as int)));
    assert(is_cell(s, 1, 0, "pitch"@, quantity::angle_text(c.pitch as int)));
    assert(is_cell(s, 2, 0, "roll"@, quantity::angle_text(c.roll as int)));
    assert(is_cell(s, 3, 0, "distance"@, quantity::fixed_text(c.distance as int, 3, 8)));
    assert(is_cell(s, 4, 0, "focus"@, quantity::point_text(c.focus)));
}

/// A view is told number by number, each under its own name.
pub proof fn a_view_is_told_by_name(path: Seq<char>, v: SavedView, scene: Scene)
    ensures
        ({
            let s = view_section_of(path, v, scene);
            &&& shows(s, "yaw"@, quantity::angle_text(v.rotation as int))
            &&& shows(s, "pitch"@, quantity::angle_text(v.pitch as int))
            &&& shows(s, "roll"@, quantity::angle_text(v.roll as int))
            &&& shows(s, "distance"@, quantity::fixed_text(v.distance as int, 3, 8))
            &&& shows(s, "focus"@, quantity::point_text(v.focus))
        }),
{
    reveal(view_section_of);
    let s = view_section_of(path, v, scene);
    let f = view_framing_of(path, v);
    a_view_begins_with_its_framing(f, v, scene);
    assert(is_cell(f, 2, 0, "yaw"@, quantity::angle_text(v.rotation as int)));
    assert(is_cell(f, 3, 0, "pitch"@, quantity::angle_text(v.pitch as int)));
    assert(is_cell(f, 4, 0, "roll"@, quantity::angle_text(v.roll as int)));
    assert(is_cell(f, 5, 0, "distance"@, quantity::fixed_text(v.distance as int, 3, 8)));
    assert(is_cell(f, 6, 0, "focus"@, quantity::point_text(v.focus)));
    assert(s.rows[2] == f.rows[2] && s.rows[3] == f.rows[3] && s.rows[4] == f.rows[4] && s.rows[5]
        == f.rows[5] && s.rows[6] == f.rows[6]);
    assert(is_cell(s, 2, 0, "yaw"@, quantity::angle_text(v.rotation as int)));
    assert(is_cell(s, 3, 0, "pitch"@, quantity::angle_text(v.pitch as int)));
    assert(is_cell(s, 4, 0, "roll"@, quantity::angle_text(v.roll as int)));
    assert(is_cell(s, 5, 0, "distance"@, quantity::fixed_text(v.distance as int, 3, 8)));
    assert(is_cell(s, 6, 0, "focus"@, quantity::point_text(v.focus)));
}

proof fn a_view_begins_with_its_framing(f: SectionModel, v: SavedView, scene: Scene)
    ensures
        ({
            let h = with_view_haze(f, v, scene);
            let s = with_view_looks(h, v, scene);
            &&& h.rows.len() == f.rows.len() + 3
            &&& s.rows.len() >= h.rows.len() + 4
            &&& forall|i: int| 0 <= i < f.rows.len() ==> (#[trigger] s.rows[i]) == f.rows[i]
            &&& forall|i: int| 0 <= i < h.rows.len() ==> (#[trigger] s.rows[i]) == h.rows[i]
        }),
{
}

/// Beside what a view has of its own and the scene has too stands the scene's.
#[verifier::spinoff_prover]
#[verifier::rlimit(60)]
pub proof fn a_view_is_told_beside_the_scene(f: SectionModel, v: SavedView, scene: Scene)
    ensures
        ({
            let s = with_view_haze(f, v, scene);
            &&& shows_both(
                s,
                "point_size"@,
                quantity::fixed_text(v.point_size as int, 4, 8),
                quantity::fixed_text(scene.point_size as int, 4, 8),
            )
            &&& shows_both(
                s,
                "haze"@,
                quantity::fixed_text(view_haze(v), 2, 8),
                quantity::fixed_text(scene.haze as int, 2, 8),
            )
        }),
        ({
            let s = with_view_looks(f, v, scene);
            &&& shows_both(
                s,
                "color_falloff"@,
                quantity::optional_text(v.color_falloff),
                quantity::fixed_text(scene.color_falloff as int, 2, 8),
            )
            &&& shows_both(
                s,
                "color_contrast"@,
                quantity::optional_text(v.color_contrast),
                quantity::fixed_text(scene.color_contrast as int, 2, 8),
            )
            &&& shows(s, "exposure"@, quantity::optional_text(v.exposure))
        }),
        0 <= view_haze(v) <= UNIT || v.haze is None,
        v.haze matches Some(a) ==> (0 <= a <= UNIT ==> view_haze(v) == a),
{
    let n = f.rows.len() as int;
    let s = with_view_haze(f, v, scene);
    assert(is_cell(s, n, 0, "point_size"@, quantity::fixed_text(v.point_size as int, 4, 8)));
    assert(is_cell(s, n, 1, "scene"@, quantity::fixed_text(scene.point_size as int, 4, 8)));
    assert(is_cell(s, n + 1, 0, "haze"@, quantity::fixed_text(view_haze(v), 2, 8)));
    assert(is_cell(s, n + 1, 1, "scene"@, quantity::fixed_text(scene.haze as int, 2, 8)));
    let t = with_view_looks(f, v, scene);
    assert(is_cell(t, n, 0, "color_falloff"@, quantity::optional_text(v.color_falloff)));
    assert(is_cell(t, n, 1, "scene"@, quantity::fixed_text(scene.color_falloff as int, 2, 8)));
    assert(is_cell(t, n + 1, 0, "color_contrast"@, quantity::optional_text(v.color_contrast)));
    assert(is_cell(t, n + 1, 1, "scene"@, quantity::fixed_text(scene.color_contrast as int, 2, 8)));
    assert(is_cell(t, n + 3, 0, "exposure"@, quantity::optional_text(v.exposure)));
}

/// What a scene is rendered with is told number by number.
pub proof fn a_rendering_is_told_by_name(scene: Scene)
    ensures
        ({
            let s = render_section_of(scene);
            &&& shows(s, "point_size"@, quantity::fixed_text(scene.point_size as int, 4, 8))
            &&& shows(s, "point_count"@, quantity::count_text(scene.point_count as nat))
            &&& shows(s, "haze"@, quantity::fixed_text(scene.haze as int, 2, 8))
            &&& shows(s, "decay"@, quantity::fixed_text(scene.decay as int, 2, 8))
            &&& shows(s, "exposure"@, quantity::fixed_text(scene.exposure as int, 2, 8))
            &&& shows(s, "background"@, quantity::point_text(scene.background))
        }),
{
    reveal(render_section_of);
    let s = render_section_of(scene);
    assert(is_cell(s, 0, 0, "point_size"@, quantity::fixed_text(scene.point_size as int, 4, 8)));
    assert(is_cell(s, 0, 1, "point_count"@, quantity::count_text(scene.point_count as nat)));
    assert(is_cell(s, 1, 0, "haze"@, quantity::fixed_text(scene.haze as int, 2, 8)));
    assert(is_cell(s, 1, 1, "decay"@, quantity::fixed_text(scene.decay as int, 2, 8)));
    assert(is_cell(s, 2, 0, "exposure"@, quantity::fixed_text(scene.exposure as int, 2, 8)));
    assert(is_cell(s, 2, 1, "background"@, quantity::point_text(scene.background)));
}

/// A form's measures are told by name.
pub proof fn a_shape_is_told_by_name(scene: Scene, m: Measured)
    ensures
        ({
            let s = measured_section_of(scene, m);
            &&& shows(s, "centre"@, quantity::point_text(m.center))
            &&& shows(s, "spread"@, quantity::point_text(m.spread))
            &&& shows(s, "radius"@, quantity::fixed_text(m.radius as int, 3, 8))
        }),
{
    let s = measured_section_of(scene, m);
    assert(is_cell(s, 0, 0, "centre"@, quantity::point_text(m.center)));
    assert(is_cell(s, 1, 0, "spread"@, quantity::point_text(m.spread)));
    assert(is_cell(s, 2, 0, "radius"@, quantity::fixed_text(m.radius as int, 3, 8)));
}

/// A zoom is told number by number.
pub proof fn a_zoom_is_told_by_name(scene: Scene, z: scene::ZoomSpec, r: Renorm)
    ensures
        ({
            let s = zoom_rows_of(scene, z, r);
            &&& shows(s, "fixed point"@, quantity::point_text(r.fixed_point))
            &&& shows(s, "scale"@, quantity::fixed_text(r.scale as int, 3, 8))
            &&& shows(s, "radius"@, quantity::fixed_text(z.radius as int, 2, 8))
            &&& shows(s, "levels"@, quantity::fixed_text(z.levels as int, 2, 8))
            &&& shows(s, "octave_falloff"@, quantity::fixed_text(z.octave_falloff as int, 2, 8))
            &&& shows(s, "edge_guard"@, quantity::fixed_text(z.edge_guard as int, 2, 8))
            &&& shows(s, "rendered"@, quantity::fixed_text(r.periods as int, 0, 8))
        }),
{
    let s = zoom_rows_of(scene, z, r);
    assert(is_cell(s, 1, 0, "fixed point"@, quantity::point_text(r.fixed_point)));
    assert(is_cell(s, 2, 0, "scale"@, quantity::fixed_text(r.scale as int, 3, 8)));
    assert(is_cell(s, 3, 0, "radius"@, quantity::fixed_text(z.radius as int, 2, 8)));
    assert(is_cell(s, 3, 1, "levels"@, quantity::fixed_text(z.levels as int, 2, 8)));
    assert(is_cell(s, 4, 0, "octave_falloff"@, quantity::fixed_text(z.octave_falloff as int, 2, 8)));
    assert(is_cell(s, 4, 1, "edge_guard"@, quantity::fixed_text(z.edge_guard as int, 2, 8)));
    assert(is_cell(s, 6, 0, "rendered"@, quantity::fixed_text(r.periods as int, 0, 8)));
}

proof fn a_ramp_only_adds(s: SectionModel, label: Seq<char>, colors: Seq<Color>, n: nat, i: int)
    requires
        0 <= i < s.rows.len(),
    ensures
        with_ramp(s, label, colors, n).rows.len() == s.rows.len() + n,
        with_ramp(s, label, colors, n).rows[i] == s.rows[i],
    decreases n,
{
    if n > 0 {
        a_ramp_only_adds(s, label, colors, (n - 1) as nat, i);
    }
}

/// A scene's colouring is told number by number.
pub proof fn colours_are_told_by_name(scene: Scene)
    ensures
        ({
            let s = colour_section_of(scene);
            &&& shows(s, "speed"@, quantity::fixed_text(scene.color_speed as int, 2, 8))
            &&& shows(s, "falloff"@, quantity::fixed_text(scene.color_falloff as int, 2, 8))
            &&& shows(s, "contrast"@, quantity::fixed_text(scene.color_contrast as int, 2, 8))
            &&& shows(
                s,
                "luminance"@,
                quantity::fixed_text(scene.gradient.mean_luminance as int, 2, 8),
            )
            &&& shows(s, "swing"@, quantity::fixed_text(scene.gradient.swing as int, 2, 8))
        }),
{
    reveal(colour_section_of);
    let mix = scene.color_mode == ColorMode::Mix;
    let base = layout::section("colour"@).two(
        layout::labelled("mode"@, text::padded_left(scene.color_mode.name_text(), 8)),
        layout::remark(mode_text(scene)),
    ).three(
        layout::labelled("speed"@, quantity::fixed_text(scene.color_speed as int, 2, 8)),
        layout::labelled("falloff"@, quantity::fixed_text(scene.color_falloff as int, 2, 8)),
        layout::labelled("contrast"@, quantity::fixed_text(scene.color_contrast as int, 2, 8)),
    ).two(
        layout::labelled(
            "luminance"@,
            quantity::fixed_text(scene.gradient.mean_luminance as int, 2, 8),
        ),
        layout::labelled("swing"@, quantity::fixed_text(scene.gradient.swing as int, 2, 8)),
    );
    let shown = shown_colors(scene);
    let label = if mix {
        "colours"@
    } else {
        "ramp"@
    };
    let n = ((shown.len() + PER_LINE - 1) / PER_LINE as int) as nat;
    a_ramp_only_adds(base, label, shown, n, 1);
    a_ramp_only_adds(base, label, shown, n, 2);
    let s = colour_section_of(scene);
    assert(s.rows[1] == base.rows[1] && s.rows[2] == base.rows[2]);
    assert(is_cell(s, 1, 0, "speed"@, quantity::fixed_text(scene.color_speed as int, 2, 8)));
    assert(is_cell(s, 1, 1, "falloff"@, quantity::fixed_text(scene.color_falloff as int, 2, 8)));
    assert(is_cell(s, 1, 2, "contrast"@, quantity::fixed_text(scene.color_contrast as int, 2, 8)));
    assert(is_cell(
        s,
        2,
        0,
        "luminance"@,
        quantity::fixed_text(scene.gradient.mean_luminance as int, 2, 8),
    ));
    assert(is_cell(s, 2, 1, "swing"@, quantity::fixed_text(scene.gradient.swing as int, 2, 8)));
}

/// A map is told in four lines: what it is, how it turns, where it moves and what
/// it blends.
pub proof fn a_map_is_told_line_by_line(
    s: SectionModel,
    scene: Scene,
    total: int,
    names: nat,
    scales: nat,
    n: nat,
    i: int,
)
    requires
        0 <= i < n,
    ensures
        ({
            let m = with_maps(s, scene, total, names, scales, n);
            let (at, t) = (s.rows.len() + 4 * i, scene.transforms@[i]);
            &&& m.rows.len() == s.rows.len() + 4 * n
            &&& m.rows[at] == layout::RowModel::Painted(map_head(scene, total, names, i))
            &&& m.rows[at + 1] == layout::RowModel::Text(map_affine(scene, scales, i))
            &&& m.rows[at + 2] == layout::RowModel::Text(
                "    move  "@ + quantity::point_text(t.translation),
            )
            &&& m.rows[at + 3] == layout::RowModel::Text("    vars  "@ + t.variations@)
        }),
    decreases n,
{
    if i < n - 1 {
        a_map_is_told_line_by_line(s, scene, total, names, scales, (n - 1) as nat, i);
    } else {
        four_lines_a_map(s, scene, total, names, scales, (n - 1) as nat);
    }
}

proof fn four_lines_a_map(
    s: SectionModel,
    scene: Scene,
    total: int,
    names: nat,
    scales: nat,
    n: nat,
)
    ensures
        with_maps(s, scene, total, names, scales, n).rows.len() == s.rows.len() + 4 * n,
    decreases n,
{
    if n > 0 {
        four_lines_a_map(s, scene, total, names, scales, (n - 1) as nat);
    }
}

/// A map's colour is the gradient's at its place where a palette colours the
/// scene, and its own otherwise.
pub proof fn a_map_is_shown_in_its_colour(scene: Scene, i: int)
    requires
        0 <= i < scene.transforms@.len(),
    ensures
        scene.color_mode is Palette ==> rendered_color(scene, i) == scene.transforms@[i].sampled,
        !(scene.color_mode is Palette) && i < scene.colors@.len() ==> rendered_color(scene, i)
            == scene.colors@[i],
        expands(scene.transforms@[i]) <==> scene.transforms@[i].contraction >= 1_000_000_000
            || scene.transforms@[i].contraction <= -1_000_000_000,
{
}

} // verus!
