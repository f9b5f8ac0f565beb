//! A report and its colours: a plain report holds no escape where nothing that
//! it is told holds one, and colour costs it no line.

use crate::info::{
    all_notes, bare_reason, camera_section_of, colour_notes, colour_section_of, contraction_size,
    crisp_text, detail_notes, details_of, expanding, facts, filling_text,
    flight_section_of, key_line, layer_notes, layers_of, loops_text, map_affine, map_head, map_notes,
    maps_notes, maps_section_of, measured_section_of, mode_text, notes_section_of, origin_text,
    path_section_of, ramp_row, ramp_spans, render_section_of, rendered_color, renorm_notes,
    route_text, scale_text, scene_section_of, sections_of, set_section_of, shape_notes,
    shape_section_of, share_text, shown_colors, speed_text, tinted, view_framing_of, view_notes,
    view_section_of, with_foci, with_keys, with_maps, with_notes, with_overrides, with_ramp,
    with_verdict, with_verdicts, with_view_haze, with_view_looks, zoom_notes, zoom_reference,
    zoom_rows_of, zoom_section_of, NoteModel, Subject, PER_LINE,
};
use crate::layout;
use crate::layout::SectionModel;
use crate::paint;
use crate::paint::{clean, cut_lines, is_clean_section, is_paintable, lines_within, page_lines};
use crate::plain::{
    a_neat_row, a_number_ends, all_plain, group_plain, is_neat_span, pieces_are_plain, plain,
    plain_notes, plain_section, tinted_is_neat, unpainted_is_neat,
};
use crate::quantity;
use crate::quantity::Color;
use crate::scene;
use crate::scene::{Applied, ColorMode, Flight, Loops, Measured, Renorm, SavedView, Scene};
use crate::text;
use vstd::prelude::*;

verus! {

broadcast use group_plain;

/// Whether no text of a scene holds an escape.
pub open spec fn is_plain_scene(scene: Scene) -> bool {
    &&& plain(scene.name@)
    &&& plain(scene.author@)
    &&& plain(scene.gradient.description@)
    &&& forall|i: int|
        0 <= i < scene.transforms@.len() ==> plain((#[trigger] scene.transforms@[i]).variations@)
            && (scene.transforms@[i].name matches Some(n) ==> plain(n@))
    &&& forall|i: int|
        0 <= i < scene.zoom_trials@.len() ==> ((#[trigger] scene.zoom_trials@[i]) matches Err(e)
            ==> plain(e@))
    &&& scene.camera_path matches Some(f) ==> (f.loops matches Loops::Other(label) ==> plain(label@))
    &&& scene.zoom matches Some(z) ==> (z.built matches Err(e) ==> plain(e@))
}

/// Whether no text of a view holds an escape.
pub open spec fn is_plain_view(v: SavedView) -> bool {
    &&& v.scene matches Some(n) ==> plain(n@)
    &&& v.renderer matches Some(r) ==> plain(r@)
}

/// Whether no text of an override holds an escape.
pub open spec fn is_plain_override(a: Applied) -> bool {
    &&& plain(a.path@)
    &&& plain(a.to@)
    &&& a.from matches Some(f) ==> plain(f@)
}

/// Whether nothing that a report is told holds an escape: no name, no path and
/// no other text.
pub open spec fn is_plain_subject(subject: Subject) -> bool {
    &&& is_plain_scene(*subject.scene)
    &&& plain(subject.source@)
    &&& subject.view matches Some(v) ==> plain(v.0@) && is_plain_view(*v.1)
    &&& forall|i: int|
        0 <= i < subject.set@.len() ==> is_plain_override(#[trigger] subject.set@[i])
}

// ---- what the scene is -----------------------------------------------------

proof fn scene_words()
    ensures
        plain("by "@),
        plain(" maps"@),
        plain(" colour"@),
        plain("zoom on"@),
        plain("no zoom"@),
        plain(" points"@),
        plain("camera path"@),
        plain("scene"@),
        plain(""@),
        plain(", "@),
        plain("reproduce with  --random --seed "@),
        plain("transforms"@),
        plain("palette"@),
        plain("mix"@),
{
    assert(plain("by "@)) by {
        reveal_strlit("by ");
        reveal(plain);
    }
    assert(plain(" maps"@)) by {
        reveal_strlit(" maps");
        reveal(plain);
    }
    assert(plain(" colour"@)) by {
        reveal_strlit(" colour");
        reveal(plain);
    }
    assert(plain("zoom on"@)) by {
        reveal_strlit("zoom on");
        reveal(plain);
    }
    assert(plain("no zoom"@)) by {
        reveal_strlit("no zoom");
        reveal(plain);
    }
    assert(plain(" points"@)) by {
        reveal_strlit(" points");
        reveal(plain);
    }
    assert(plain("camera path"@)) by {
        reveal_strlit("camera path");
        reveal(plain);
    }
    assert(plain("scene"@)) by {
        reveal_strlit("scene");
        reveal(plain);
    }
    assert(plain(""@)) by {
        reveal_strlit("");
        reveal(plain);
    }
    assert(plain(", "@)) by {
        reveal_strlit(", ");
        reveal(plain);
    }
    assert(plain("reproduce with  --random --seed "@)) by {
        reveal_strlit("reproduce with  --random --seed ");
        reveal(plain);
    }
    assert(plain("transforms"@)) by {
        reveal_strlit("transforms");
        reveal(plain);
    }
    assert(plain("palette"@)) by {
        reveal_strlit("palette");
        reveal(plain);
    }
    assert(plain("mix"@)) by {
        reveal_strlit("mix");
        reveal(plain);
    }
}

proof fn facts_are_plain(scene: Scene)
    requires
        is_plain_scene(scene),
    ensures
        all_plain(facts(scene)),
{
    scene_words();
    let all = facts(scene);
    assert forall|i: int| 0 <= i < all.len() implies plain(#[trigger] all[i]) by {}
    reveal(all_plain);
}

proof fn scene_is_plain(subject: Subject)
    requires
        is_plain_subject(subject),
    ensures
        plain_section(scene_section_of(subject)),
{
    reveal(scene_section_of);
    scene_words();
    facts_are_plain(*subject.scene);
}

proof fn map_names_are_plain(scene: Scene, i: int)
    requires
        is_plain_scene(scene),
    ensures
        plain(scene::map_name(scene, i)),
{
    assert(plain("#"@)) by {
        reveal_strlit("#");
        reveal(plain);
    }
    if 0 <= i < scene.transforms@.len() {
        let t = scene.transforms@[i];
    }
}

// ---- notes -----------------------------------------------------------------

proof fn notes_stay_plain(s: SectionModel, notes: Seq<NoteModel>, width: nat, n: nat)
    requires
        plain_section(s),
        plain_notes(notes),
        n <= notes.len(),
    ensures
        plain_section(with_notes(s, notes, width, n)),
    decreases n,
{
    if n > 0 {
        notes_stay_plain(s, notes, width, (n - 1) as nat);
        assert(plain(notes[n - 1].tag) && plain(notes[n - 1].text)) by {
            reveal(plain_notes);
        }
    }
}

proof fn notes_words()
    ensures
        plain("notes"@),
        plain("none"@),
{
    assert(plain("notes"@)) by {
        reveal_strlit("notes");
        reveal(plain);
    }
    assert(plain("none"@)) by {
        reveal_strlit("none");
        reveal(plain);
    }
}

proof fn notes_are_plain(notes: Seq<NoteModel>)
    requires
        plain_notes(notes),
    ensures
        plain_section(notes_section_of(notes)),
{
    reveal(notes_section_of);
    notes_words();
    if notes.len() > 0 {
        let s = layout::section("notes"@).text(text::decimal(notes.len()));
        assert(plain_section(s));
        notes_stay_plain(s, notes, crate::info::widest_tag(notes) + 2, notes.len());
    }
}

// ---- overrides -------------------------------------------------------------

proof fn set_words()
    ensures
        plain("set"@),
        plain(" override"@),
        plain(""@),
        plain("s"@),
        plain(" applied to "@),
        plain("was"@),
        plain("(unset)"@),
{
    assert(plain("set"@)) by {
        reveal_strlit("set");
        reveal(plain);
    }
    assert(plain(" override"@)) by {
        reveal_strlit(" override");
        reveal(plain);
    }
    assert(plain(""@)) by {
        reveal_strlit("");
        reveal(plain);
    }
    assert(plain("s"@)) by {
        reveal_strlit("s");
        reveal(plain);
    }
    assert(plain(" applied to "@)) by {
        reveal_strlit(" applied to ");
        reveal(plain);
    }
    assert(plain("was"@)) by {
        reveal_strlit("was");
        reveal(plain);
    }
    assert(plain("(unset)"@)) by {
        reveal_strlit("(unset)");
        reveal(plain);
    }
}

proof fn overrides_stay_plain(s: SectionModel, set: Seq<Applied>, width: nat, n: nat)
    requires
        plain_section(s),
        n <= set.len(),
        forall|i: int| 0 <= i < set.len() ==> is_plain_override(#[trigger] set[i]),
    ensures
        plain_section(with_overrides(s, set, width, n)),
    decreases n,
{
    if n > 0 {
        set_words();
        overrides_stay_plain(s, set, width, (n - 1) as nat);
        assert(is_plain_override(set[n - 1]));
    }
}

proof fn set_is_plain(subject: Subject)
    requires
        is_plain_subject(subject),
    ensures
        plain_section(set_section_of(subject)),
{
    reveal(set_section_of);
    set_words();
    let set = subject.set@;
    let s = layout::section("set"@).text(
        text::decimal(set.len()) + " override"@ + (if set.len() == 1 {
            ""@
        } else {
            "s"@
        }) + " applied to "@ + subject.source@,
    );
    assert(plain_section(s));
    overrides_stay_plain(s, set, crate::info::widest_value(set), set.len());
}

// ---- the view --------------------------------------------------------------

proof fn framing_words()
    ensures
        plain("view"@),
        plain("of scene"@),
        plain("unset"@),
        plain("yaw"@),
        plain("pitch"@),
        plain("roll"@),
        plain("distance"@),
        plain("focus"@),
        plain("offset"@),
        plain("legacy; folded into the framing"@),
{
    assert(plain("view"@)) by {
        reveal_strlit("view");
        reveal(plain);
    }
    assert(plain("of scene"@)) by {
        reveal_strlit("of scene");
        reveal(plain);
    }
    assert(plain("unset"@)) by {
        reveal_strlit("unset");
        reveal(plain);
    }
    assert(plain("yaw"@)) by {
        reveal_strlit("yaw");
        reveal(plain);
    }
    assert(plain("pitch"@)) by {
        reveal_strlit("pitch");
        reveal(plain);
    }
    assert(plain("roll"@)) by {
        reveal_strlit("roll");
        reveal(plain);
    }
    assert(plain("distance"@)) by {
        reveal_strlit("distance");
        reveal(plain);
    }
    assert(plain("focus"@)) by {
        reveal_strlit("focus");
        reveal(plain);
    }
    assert(plain("offset"@)) by {
        reveal_strlit("offset");
        reveal(plain);
    }
    assert(plain("legacy; folded into the framing"@)) by {
        reveal_strlit("legacy; folded into the framing");
        reveal(plain);
    }
}

proof fn view_framing_is_plain(path: Seq<char>, v: SavedView)
    requires
        plain(path),
        is_plain_view(v),
    ensures
        plain_section(view_framing_of(path, v)),
{
    framing_words();
}

proof fn haze_words()
    ensures
        plain("point_size"@),
        plain("scene"@),
        plain("haze"@),
        plain("haze band"@),
        plain("pinned"@),
        plain("auto"@),
        plain("near "@),
        plain(", far "@),
        plain("ranged from the camera distance"@),
{
    assert(plain("point_size"@)) by {
        reveal_strlit("point_size");
        reveal(plain);
    }
    assert(plain("scene"@)) by {
        reveal_strlit("scene");
        reveal(plain);
    }
    assert(plain("haze"@)) by {
        reveal_strlit("haze");
        reveal(plain);
    }
    assert(plain("haze band"@)) by {
        reveal_strlit("haze band");
        reveal(plain);
    }
    assert(plain("pinned"@)) by {
        reveal_strlit("pinned");
        reveal(plain);
    }
    assert(plain("auto"@)) by {
        reveal_strlit("auto");
        reveal(plain);
    }
    assert(plain("near "@)) by {
        reveal_strlit("near ");
        reveal(plain);
    }
    assert(plain(", far "@)) by {
        reveal_strlit(", far ");
        reveal(plain);
    }
    assert(plain("ranged from the camera distance"@)) by {
        reveal_strlit("ranged from the camera distance");
        reveal(plain);
    }
}

proof fn view_haze_is_plain(s: SectionModel, v: SavedView, scene: Scene)
    requires
        plain_section(s),
    ensures
        plain_section(with_view_haze(s, v, scene)),
{
    haze_words();
}

proof fn looks_words()
    ensures
        plain("color_falloff"@),
        plain("scene"@),
        plain("color_contrast"@),
        plain("renderer"@),
        plain("unset"@),
        plain("default"@),
        plain("points"@),
        plain("exposure"@),
        plain("1.00, splat only"@),
        plain("haze was recovered from this view's haze_transmittance: it predates"@),
        plain("haze becoming one control, and carries only the shader values"@),
        plain("a view sets only the rows above; transforms, colours, background,"@),
        plain("point_count, camera path and zoom always come from the scene"@),
{
    assert(plain("color_falloff"@)) by {
        reveal_strlit("color_falloff");
        reveal(plain);
    }
    assert(plain("scene"@)) by {
        reveal_strlit("scene");
        reveal(plain);
    }
    assert(plain("color_contrast"@)) by {
        reveal_strlit("color_contrast");
        reveal(plain);
    }
    assert(plain("renderer"@)) by {
        reveal_strlit("renderer");
        reveal(plain);
    }
    assert(plain("unset"@)) by {
        reveal_strlit("unset");
        reveal(plain);
    }
    assert(plain("default"@)) by {
        reveal_strlit("default");
        reveal(plain);
    }
    assert(plain("points"@)) by {
        reveal_strlit("points");
        reveal(plain);
    }
    assert(plain("exposure"@)) by {
        reveal_strlit("exposure");
        reveal(plain);
    }
    assert(plain("1.00, splat only"@)) by {
        reveal_strlit("1.00, splat only");
        reveal(plain);
    }
    assert(plain("haze was recovered from this view's haze_transmittance: it predates"@)) by {
        reveal_strlit("haze was recovered from this view's haze_transmittance: it predates");
        reveal(plain);
    }
    assert(plain("haze becoming one control, and carries only the shader values"@)) by {
        reveal_strlit("haze becoming one control, and carries only the shader values");
        reveal(plain);
    }
    assert(plain("a view sets only the rows above; transforms, colours, background,"@)) by {
        reveal_strlit("a view sets only the rows above; transforms, colours, background,");
        reveal(plain);
    }
    assert(plain("point_count, camera path and zoom always come from the scene"@)) by {
        reveal_strlit("point_count, camera path and zoom always come from the scene");
        reveal(plain);
    }
}

proof fn view_looks_are_plain(s: SectionModel, v: SavedView, scene: Scene)
    requires
        plain_section(s),
        is_plain_view(v),
    ensures
        plain_section(with_view_looks(s, v, scene)),
{
    looks_words();
}

proof fn view_is_plain(path: Seq<char>, v: SavedView, scene: Scene)
    requires
        plain(path),
        is_plain_view(v),
    ensures
        plain_section(view_section_of(path, v, scene)),
{
    reveal(view_section_of);
    view_framing_is_plain(path, v);
    view_haze_is_plain(view_framing_of(path, v), v, scene);
    view_looks_are_plain(with_view_haze(view_framing_of(path, v), v, scene), v, scene);
}

proof fn view_note_words()
    ensures
        plain("view"@),
        plain("this view was framed against "@),
{
    assert(plain("view"@)) by {
        reveal_strlit("view");
        reveal(plain);
    }
    assert(plain("this view was framed against "@)) by {
        reveal_strlit("this view was framed against ");
        reveal(plain);
    }
}

proof fn view_notes_are_plain(v: SavedView, scene: Scene)
    requires
        is_plain_view(v),
    ensures
        plain_notes(view_notes(v, scene)),
{
    reveal(view_notes);
    view_note_words();
}

// ---- the shape -------------------------------------------------------------

proof fn expanding_words()
    ensures
        plain("["@),
        plain("] "@),
        plain(" ("@),
        plain(")"@),
{
    assert(plain("["@)) by {
        reveal_strlit("[");
        reveal(plain);
    }
    assert(plain("] "@)) by {
        reveal_strlit("] ");
        reveal(plain);
    }
    assert(plain(" ("@)) by {
        reveal_strlit(" (");
        reveal(plain);
    }
    assert(plain(")"@)) by {
        reveal_strlit(")");
        reveal(plain);
    }
}

proof fn expanding_is_plain(scene: Scene, n: nat)
    requires
        is_plain_scene(scene),
        n <= scene.transforms@.len(),
    ensures
        all_plain(expanding(scene, n)),
    decreases n,
{
    if n > 0 {
        expanding_words();
        expanding_is_plain(scene, (n - 1) as nat);
        map_names_are_plain(scene, n - 1);
        assert(plain(contraction_size(scene.transforms@[n - 1])));
    }
}

proof fn measured_words()
    ensures
        plain("shape"@),
        plain("centre"@),
        plain("spread"@),
        plain("radius"@),
        plain("occupancy"@),
        plain("%"@),
        plain("to fill the frame   -S camera.distance="@),
        plain("for crisp points    -S meta.point_size="@),
        plain("the scene sets      distance "@),
        plain(", point_size "@),
        plain("radius is the 95th percentile of the walk's distance from the centre"@),
{
    assert(plain("shape"@)) by {
        reveal_strlit("shape");
        reveal(plain);
    }
    assert(plain("centre"@)) by {
        reveal_strlit("centre");
        reveal(plain);
    }
    assert(plain("spread"@)) by {
        reveal_strlit("spread");
        reveal(plain);
    }
    assert(plain("radius"@)) by {
        reveal_strlit("radius");
        reveal(plain);
    }
    assert(plain("occupancy"@)) by {
        reveal_strlit("occupancy");
        reveal(plain);
    }
    assert(plain("%"@)) by {
        reveal_strlit("%");
        reveal(plain);
    }
    assert(plain("to fill the frame   -S camera.distance="@)) by {
        reveal_strlit("to fill the frame   -S camera.distance=");
        reveal(plain);
    }
    assert(plain("for crisp points    -S meta.point_size="@)) by {
        reveal_strlit("for crisp points    -S meta.point_size=");
        reveal(plain);
    }
    assert(plain("the scene sets      distance "@)) by {
        reveal_strlit("the scene sets      distance ");
        reveal(plain);
    }
    assert(plain(", point_size "@)) by {
        reveal_strlit(", point_size ");
        reveal(plain);
    }
    assert(plain("radius is the 95th percentile of the walk's distance from the centre"@)) by {
        reveal_strlit("radius is the 95th percentile of the walk's distance from the centre");
        reveal(plain);
    }
}

proof fn measured_is_plain(scene: Scene, m: Measured)
    ensures
        plain_section(measured_section_of(scene, m)),
{
    measured_words();
}

proof fn shape_words()
    ensures
        plain("shape"@),
        plain("the chaos game does not converge"@),
        plain("every weight is zero, or the walk runs away"@),
        plain("maps that expand:  "@),
        plain(", "@),
{
    assert(plain("shape"@)) by {
        reveal_strlit("shape");
        reveal(plain);
    }
    assert(plain("the chaos game does not converge"@)) by {
        reveal_strlit("the chaos game does not converge");
        reveal(plain);
    }
    assert(plain("every weight is zero, or the walk runs away"@)) by {
        reveal_strlit("every weight is zero, or the walk runs away");
        reveal(plain);
    }
    assert(plain("maps that expand:  "@)) by {
        reveal_strlit("maps that expand:  ");
        reveal(plain);
    }
    assert(plain(", "@)) by {
        reveal_strlit(", ");
        reveal(plain);
    }
}

proof fn shape_is_plain(scene: Scene)
    requires
        is_plain_scene(scene),
    ensures
        plain_section(shape_section_of(scene)),
{
    reveal(shape_section_of);
    match scene.measured {
        Some(m) => measured_is_plain(scene, m),
        None => {
            shape_words();
            expanding_is_plain(scene, scene.transforms@.len());
        },
    }
}

proof fn shape_note_words()
    ensures
        plain("shape"@),
        plain("frames at distance "@),
        plain(", "@),
        plain("x the "@),
        plain(" that fills the frame"@),
        plain("render"@),
        plain("point_size "@),
        plain(" is over the "@),
        plain(" crisp bound at 1080p"@),
        plain("camera"@),
        plain("focus is "@),
        plain(" from the centre, outside the "@),
        plain(" radius"@),
        plain("the chaos game does not converge \u{2014} nothing to render"@),
{
    assert(plain("shape"@)) by {
        reveal_strlit("shape");
        reveal(plain);
    }
    assert(plain("frames at distance "@)) by {
        reveal_strlit("frames at distance ");
        reveal(plain);
    }
    assert(plain(", "@)) by {
        reveal_strlit(", ");
        reveal(plain);
    }
    assert(plain("x the "@)) by {
        reveal_strlit("x the ");
        reveal(plain);
    }
    assert(plain(" that fills the frame"@)) by {
        reveal_strlit(" that fills the frame");
        reveal(plain);
    }
    assert(plain("render"@)) by {
        reveal_strlit("render");
        reveal(plain);
    }
    assert(plain("point_size "@)) by {
        reveal_strlit("point_size ");
        reveal(plain);
    }
    assert(plain(" is over the "@)) by {
        reveal_strlit(" is over the ");
        reveal(plain);
    }
    assert(plain(" crisp bound at 1080p"@)) by {
        reveal_strlit(" crisp bound at 1080p");
        reveal(plain);
    }
    assert(plain("camera"@)) by {
        reveal_strlit("camera");
        reveal(plain);
    }
    assert(plain("focus is "@)) by {
        reveal_strlit("focus is ");
        reveal(plain);
    }
    assert(plain(" from the centre, outside the "@)) by {
        reveal_strlit(" from the centre, outside the ");
        reveal(plain);
    }
    assert(plain(" radius"@)) by {
        reveal_strlit(" radius");
        reveal(plain);
    }
    assert(plain("the chaos game does not converge \u{2014} nothing to render"@)) by {
        reveal_strlit("the chaos game does not converge \u{2014} nothing to render");
        reveal(plain);
    }
}

proof fn shape_notes_are_plain(scene: Scene, framing: crate::camera::OrbitCamera)
    ensures
        plain_notes(shape_notes(scene, framing)),
{
    reveal(shape_notes);
    shape_note_words();
    match scene.measured {
        Some(m) => {
            let filling = crate::info::filling_distance(m.radius as int);
            assert(plain(filling_text(filling)));
            assert(plain(crisp_text(filling)));
            assert(plain_notes(crate::info::distance_notes(framing.distance as int, filling)));
            assert(plain_notes(crate::info::size_notes(scene.point_size as int, filling)));
            assert(plain_notes(crate::info::focus_notes(framing.focus, m)));
        },
        None => {},
    }
}

// ---- the maps --------------------------------------------------------------

proof fn map_words()
    ensures
        plain("%"@),
        plain("["@),
        plain(", "@),
        plain("]"@),
        plain("   speed "@),
        plain("] "@),
        plain(" "@),
        plain("   "@),
        plain("expansion  "@),
        plain("contraction"@),
        plain(" @"@),
        plain("    scale "@),
        plain("   rot ("@),
        plain(","@),
        plain(")\u{b0}"@),
{
    assert(plain("%"@)) by {
        reveal_strlit("%");
        reveal(plain);
    }
    assert(plain("["@)) by {
        reveal_strlit("[");
        reveal(plain);
    }
    assert(plain(", "@)) by {
        reveal_strlit(", ");
        reveal(plain);
    }
    assert(plain("]"@)) by {
        reveal_strlit("]");
        reveal(plain);
    }
    assert(plain("   speed "@)) by {
        reveal_strlit("   speed ");
        reveal(plain);
    }
    assert(plain("] "@)) by {
        reveal_strlit("] ");
        reveal(plain);
    }
    assert(plain(" "@)) by {
        reveal_strlit(" ");
        reveal(plain);
    }
    assert(plain("   "@)) by {
        reveal_strlit("   ");
        reveal(plain);
    }
    assert(plain("expansion  "@)) by {
        reveal_strlit("expansion  ");
        reveal(plain);
    }
    assert(plain("contraction"@)) by {
        reveal_strlit("contraction");
        reveal(plain);
    }
    assert(plain(" @"@)) by {
        reveal_strlit(" @");
        reveal(plain);
    }
    assert(plain("    scale "@)) by {
        reveal_strlit("    scale ");
        reveal(plain);
    }
    assert(plain("   rot ("@)) by {
        reveal_strlit("   rot (");
        reveal(plain);
    }
    assert(plain(","@)) by {
        reveal_strlit(",");
        reveal(plain);
    }
    assert(plain(")\u{b0}"@)) by {
        reveal_strlit(")\u{b0}");
        reveal(plain);
    }
}

proof fn a_map_head_is_neat(s: SectionModel, scene: Scene, total: int, width: nat, i: int)
    requires
        plain_section(s),
        is_plain_scene(scene),
    ensures
        plain_section(s.painted(map_head(scene, total, width, i))),
{
    map_words();
    map_names_are_plain(scene, i);
    let t = scene.transforms@[i];
    let spans = map_head(scene, total, width, i);
    assert(plain(share_text(t.weight as int, total)));
    assert(plain(spans[0].text));
    unpainted_is_neat(spans[0].text);
    tinted_is_neat(rendered_color(scene, i));
    a_number_ends(t.color_value as int, 2);
    let value = quantity::plain_text(t.color_value as int, 2);
    assert(plain(" @"@ + value));
    unpainted_is_neat(" @"@ + value);
    assert((" @"@ + value).last() == value.last());
    a_neat_row(s, spans);
}

proof fn a_map_affine_is_plain(scene: Scene, width: nat, i: int)
    ensures
        plain(map_affine(scene, width, i)),
{
    map_words();
    let t = scene.transforms@[i];
    assert(plain(scale_text(t.scale)));
    assert(plain(speed_text(scene, t)));
}

proof fn maps_words()
    ensures
        plain("    move  "@),
        plain("    vars  "@),
        plain("maps"@),
        plain("   share of the walk, contraction, colour as rendered"@),
        plain("a negative contraction is a map that reflects; one at or past 1.0"@),
        plain("expands. rotations are re-derived from the matrix, so the euler"@),
        plain("branch may differ from the file \u{2014} the rotation itself is the same"@),
{
    assert(plain("    move  "@)) by {
        reveal_strlit("    move  ");
        reveal(plain);
    }
    assert(plain("    vars  "@)) by {
        reveal_strlit("    vars  ");
        reveal(plain);
    }
    assert(plain("maps"@)) by {
        reveal_strlit("maps");
        reveal(plain);
    }
    assert(plain("   share of the walk, contraction, colour as rendered"@)) by {
        reveal_strlit("   share of the walk, contraction, colour as rendered");
        reveal(plain);
    }
    assert(plain("a negative contraction is a map that reflects; one at or past 1.0"@)) by {
        reveal_strlit("a negative contraction is a map that reflects; one at or past 1.0");
        reveal(plain);
    }
    assert(plain("expands. rotations are re-derived from the matrix, so the euler"@)) by {
        reveal_strlit("expands. rotations are re-derived from the matrix, so the euler");
        reveal(plain);
    }
    assert(plain("branch may differ from the file \u{2014} the rotation itself is the same"@)) by {
        reveal_strlit("branch may differ from the file \u{2014} the rotation itself is the same");
        reveal(plain);
    }
}

proof fn maps_stay_plain(
    s: SectionModel,
    scene: Scene,
    total: int,
    names: nat,
    scales: nat,
    n: nat,
)
    requires
        plain_section(s),
        is_plain_scene(scene),
        n <= scene.transforms@.len(),
    ensures
        plain_section(with_maps(s, scene, total, names, scales, n)),
    decreases n,
{
    if n > 0 {
        maps_words();
        maps_stay_plain(s, scene, total, names, scales, (n - 1) as nat);
        let before = with_maps(s, scene, total, names, scales, (n - 1) as nat);
        a_map_head_is_neat(before, scene, total, names, n - 1);
        a_map_affine_is_plain(scene, scales, n - 1);
        assert(plain(scene.transforms@[n - 1].variations@));
    }
}

proof fn maps_are_plain(scene: Scene)
    requires
        is_plain_scene(scene),
    ensures
        plain_section(maps_section_of(scene)),
{
    reveal(maps_section_of);
    maps_words();
    let n = scene.transforms@.len();
    let s = layout::section("maps"@).text(
        text::decimal(n) + "   share of the walk, contraction, colour as rendered"@,
    );
    assert(plain_section(s));
    maps_stay_plain(
        s,
        scene,
        crate::info::total_weight(scene, n),
        crate::info::held(crate::info::widest_name(scene, n), 6, 14),
        crate::info::held(crate::info::widest_scale(scene, n), 5, 22),
        n,
    );
}

proof fn map_note_words()
    ensures
        plain("["@),
        plain("] "@),
        plain("maps"@),
        plain(" expands ("@),
        plain(") \u{2014} the walk will not settle"@),
        plain(" has weight 0 and never fires"@),
{
    assert(plain("["@)) by {
        reveal_strlit("[");
        reveal(plain);
    }
    assert(plain("] "@)) by {
        reveal_strlit("] ");
        reveal(plain);
    }
    assert(plain("maps"@)) by {
        reveal_strlit("maps");
        reveal(plain);
    }
    assert(plain(" expands ("@)) by {
        reveal_strlit(" expands (");
        reveal(plain);
    }
    assert(plain(") \u{2014} the walk will not settle"@)) by {
        reveal_strlit(") \u{2014} the walk will not settle");
        reveal(plain);
    }
    assert(plain(" has weight 0 and never fires"@)) by {
        reveal_strlit(" has weight 0 and never fires");
        reveal(plain);
    }
}

proof fn maps_notes_are_plain(scene: Scene, n: nat)
    requires
        is_plain_scene(scene),
        n <= scene.transforms@.len(),
    ensures
        plain_notes(maps_notes(scene, n)),
    decreases n,
{
    if n > 0 {
        map_note_words();
        maps_notes_are_plain(scene, (n - 1) as nat);
        map_names_are_plain(scene, n - 1);
        assert(plain(contraction_size(scene.transforms@[n - 1])));
        assert(plain_notes(map_notes(scene, n - 1)));
    }
}

// ---- how it renders --------------------------------------------------------

proof fn render_words()
    ensures
        plain("render"@),
        plain("point_size"@),
        plain("point_count"@),
        plain("(default)"@),
        plain(""@),
        plain("haze"@),
        plain("decay"@),
        plain("exposure"@),
        plain("background"@),
        plain("background is linear RGB, as the shader takes it, not sRGB"@),
{
    assert(plain("render"@)) by {
        reveal_strlit("render");
        reveal(plain);
    }
    assert(plain("point_size"@)) by {
        reveal_strlit("point_size");
        reveal(plain);
    }
    assert(plain("point_count"@)) by {
        reveal_strlit("point_count");
        reveal(plain);
    }
    assert(plain("(default)"@)) by {
        reveal_strlit("(default)");
        reveal(plain);
    }
    assert(plain(""@)) by {
        reveal_strlit("");
        reveal(plain);
    }
    assert(plain("haze"@)) by {
        reveal_strlit("haze");
        reveal(plain);
    }
    assert(plain("decay"@)) by {
        reveal_strlit("decay");
        reveal(plain);
    }
    assert(plain("exposure"@)) by {
        reveal_strlit("exposure");
        reveal(plain);
    }
    assert(plain("background"@)) by {
        reveal_strlit("background");
        reveal(plain);
    }
    assert(plain("background is linear RGB, as the shader takes it, not sRGB"@)) by {
        reveal_strlit("background is linear RGB, as the shader takes it, not sRGB");
        reveal(plain);
    }
}

proof fn render_is_plain(scene: Scene)
    ensures
        plain_section(render_section_of(scene)),
{
    reveal(render_section_of);
    render_words();
}

// ---- its colours -----------------------------------------------------------

proof fn ramps_are_neat(colors: Seq<Color>)
    ensures
        forall|i: int|
            0 <= i < ramp_spans(colors).len() ==> is_neat_span(#[trigger] ramp_spans(colors)[i]),
        colors.len() > 0 ==> ramp_spans(colors).len() > 0 && ramp_spans(colors).last() == tinted(
            colors.last(),
        ),
    decreases colors.len(),
{
    if colors.len() > 0 {
        ramps_are_neat(colors.drop_last());
        assert(plain(" "@)) by {
            reveal_strlit(" ");
            reveal(plain);
        }
        unpainted_is_neat(" "@);
        tinted_is_neat(colors.last());
        let before = ramp_spans(colors.drop_last());
        let gap = if colors.len() > 1 {
            seq![layout::unpainted(" "@)]
        } else {
            Seq::empty()
        };
        let all = ramp_spans(colors);
        assert(all == before + gap + seq![tinted(colors.last())]);
        assert forall|i: int| 0 <= i < all.len() implies is_neat_span(#[trigger] all[i]) by {
            if i < before.len() {
                assert(all[i] == before[i]);
            } else if i < before.len() + gap.len() {
                assert(all[i] == gap[i - before.len()]);
            } else {
                assert(all[i] == tinted(colors.last()));
            }
        }
    }
}

proof fn a_ramp_stays_plain(s: SectionModel, label: Seq<char>, colors: Seq<Color>, n: nat)
    requires
        plain_section(s),
        plain(label),
        PER_LINE * (n - 1) < colors.len(),
    ensures
        plain_section(with_ramp(s, label, colors, n)),
    decreases n,
{
    if n > 0 {
        a_ramp_stays_plain(s, label, colors, (n - 1) as nat);
        let before = with_ramp(s, label, colors, (n - 1) as nat);
        assert(plain(""@)) by {
            reveal_strlit("");
            reveal(plain);
        }
        let head = text::padded_right(
            if n == 1 {
                label
            } else {
                ""@
            },
            8,
        );
        assert(plain(head));
        unpainted_is_neat(head);
        let row = ramp_row(colors, n - 1);
        assert(row.len() > 0);
        ramps_are_neat(row);
        tinted_is_neat(row.last());
        let spans = seq![layout::unpainted(head)] + ramp_spans(row);
        assert forall|i: int| 0 <= i < spans.len() implies is_neat_span(#[trigger] spans[i]) by {
            if i > 0 {
                assert(spans[i] == ramp_spans(row)[i - 1]);
            }
        }
        assert(spans.last() == ramp_spans(row).last());
        a_neat_row(before, spans);
    }
}

proof fn colour_words()
    ensures
        plain(" transform colours, evenly spread"@),
        plain(" transform colours mixed as RGB"@),
        plain("colour"@),
        plain("mode"@),
        plain("speed"@),
        plain("falloff"@),
        plain("contrast"@),
        plain("luminance"@),
        plain("swing"@),
        plain("colours"@),
        plain("ramp"@),
        plain(""@),
        plain("mix mode has no colormap, so transform *combinations* are"@),
        plain("distinguishable and color_contrast does not apply"@),
        plain("transforms"@),
        plain("palette"@),
        plain("mix"@),
{
    assert(plain(" transform colours, evenly spread"@)) by {
        reveal_strlit(" transform colours, evenly spread");
        reveal(plain);
    }
    assert(plain(" transform colours mixed as RGB"@)) by {
        reveal_strlit(" transform colours mixed as RGB");
        reveal(plain);
    }
    assert(plain("colour"@)) by {
        reveal_strlit("colour");
        reveal(plain);
    }
    assert(plain("mode"@)) by {
        reveal_strlit("mode");
        reveal(plain);
    }
    assert(plain("speed"@)) by {
        reveal_strlit("speed");
        reveal(plain);
    }
    assert(plain("falloff"@)) by {
        reveal_strlit("falloff");
        reveal(plain);
    }
    assert(plain("contrast"@)) by {
        reveal_strlit("contrast");
        reveal(plain);
    }
    assert(plain("luminance"@)) by {
        reveal_strlit("luminance");
        reveal(plain);
    }
    assert(plain("swing"@)) by {
        reveal_strlit("swing");
        reveal(plain);
    }
    assert(plain("colours"@)) by {
        reveal_strlit("colours");
        reveal(plain);
    }
    assert(plain("ramp"@)) by {
        reveal_strlit("ramp");
        reveal(plain);
    }
    assert(plain(""@)) by {
        reveal_strlit("");
        reveal(plain);
    }
    assert(plain("mix mode has no colormap, so transform *combinations* are"@)) by {
        reveal_strlit("mix mode has no colormap, so transform *combinations* are");
        reveal(plain);
    }
    assert(plain("distinguishable and color_contrast does not apply"@)) by {
        reveal_strlit("distinguishable and color_contrast does not apply");
        reveal(plain);
    }
    assert(plain("transforms"@)) by {
        reveal_strlit("transforms");
        reveal(plain);
    }
    assert(plain("palette"@)) by {
        reveal_strlit("palette");
        reveal(plain);
    }
    assert(plain("mix"@)) by {
        reveal_strlit("mix");
        reveal(plain);
    }
}

proof fn colours_are_plain(scene: Scene)
    requires
        is_plain_scene(scene),
    ensures
        plain_section(colour_section_of(scene)),
{
    reveal(colour_section_of);
    colour_words();
    let mix = scene.color_mode == ColorMode::Mix;
    assert(plain(mode_text(scene)));
    let s = layout::section("colour"@).two(
        layout::labelled("mode"@, text::padded_left(scene.color_mode.name_text(), 8)),
        layout::remark(mode_text(scene)),
    ).three(
        layout::labelled("speed"@, quantity::fixed_text(scene.color_speed as int, 2, 8)),
        layout::labelled("falloff"@, quantity::fixed_text(scene.color_falloff as int, 2, 8)),
        layout::labelled("contrast"@, quantity::fixed_text(scene.color_contrast as int, 2, 8)),
    ).two(
        layout::labelled(
            "luminance"@,
            quantity::fixed_text(scene.gradient.mean_luminance as int, 2, 8),
        ),
        layout::labelled("swing"@, quantity::fixed_text(scene.gradient.swing as int, 2, 8)),
    );
    assert(plain_section(s));
    let shown = shown_colors(scene);
    a_ramp_stays_plain(
        s,
        if mix {
            "colours"@
        } else {
            "ramp"@
        },
        shown,
        ((shown.len() + PER_LINE - 1) / PER_LINE as int) as nat,
    );
}

proof fn colour_note_words()
    ensures
        plain("colour"@),
        plain("the gradient is flat (swing "@),
        plain(") \u{2014} renders unshaded"@),
        plain("this scene carries a [palette]; --color-mode palette renders it"@),
        plain("color_contrast "@),
        plain(" stretches the index \u{2014} only part of the ramp is reached"@),
{
    assert(plain("colour"@)) by {
        reveal_strlit("colour");
        reveal(plain);
    }
    assert(plain("the gradient is flat (swing "@)) by {
        reveal_strlit("the gradient is flat (swing ");
        reveal(plain);
    }
    assert(plain(") \u{2014} renders unshaded"@)) by {
        reveal_strlit(") \u{2014} renders unshaded");
        reveal(plain);
    }
    assert(plain("this scene carries a [palette]; --color-mode palette renders it"@)) by {
        reveal_strlit("this scene carries a [palette]; --color-mode palette renders it");
        reveal(plain);
    }
    assert(plain("color_contrast "@)) by {
        reveal_strlit("color_contrast ");
        reveal(plain);
    }
    assert(plain(" stretches the index \u{2014} only part of the ramp is reached"@)) by {
        reveal_strlit(" stretches the index \u{2014} only part of the ramp is reached");
        reveal(plain);
    }
}

proof fn colour_notes_are_plain(scene: Scene)
    ensures
        plain_notes(colour_notes(scene)),
{
    reveal(colour_notes);
    colour_note_words();
}

// ---- the camera and its path -----------------------------------------------

proof fn camera_words()
    ensures
        plain("--view, then the camera flags"@),
        plain("--view"@),
        plain("the scene, then the camera flags"@),
        plain("the scene"@),
        plain("camera"@),
        plain("yaw"@),
        plain("pitch"@),
        plain("roll"@),
        plain("distance"@),
        plain("focus"@),
        plain("from "@),
        plain("the scene's own: yaw "@),
        plain(" pitch "@),
        plain(" distance "@),
        plain("                 focus "@),
        plain("under infinite zoom, reported in the canonical period as it renders"@),
{
    assert(plain("--view, then the camera flags"@)) by {
        reveal_strlit("--view, then the camera flags");
        reveal(plain);
    }
    assert(plain("--view"@)) by {
        reveal_strlit("--view");
        reveal(plain);
    }
    assert(plain("the scene, then the camera flags"@)) by {
        reveal_strlit("the scene, then the camera flags");
        reveal(plain);
    }
    assert(plain("the scene"@)) by {
        reveal_strlit("the scene");
        reveal(plain);
    }
    assert(plain("camera"@)) by {
        reveal_strlit("camera");
        reveal(plain);
    }
    assert(plain("yaw"@)) by {
        reveal_strlit("yaw");
        reveal(plain);
    }
    assert(plain("pitch"@)) by {
        reveal_strlit("pitch");
        reveal(plain);
    }
    assert(plain("roll"@)) by {
        reveal_strlit("roll");
        reveal(plain);
    }
    assert(plain("distance"@)) by {
        reveal_strlit("distance");
        reveal(plain);
    }
    assert(plain("focus"@)) by {
        reveal_strlit("focus");
        reveal(plain);
    }
    assert(plain("from "@)) by {
        reveal_strlit("from ");
        reveal(plain);
    }
    assert(plain("the scene's own: yaw "@)) by {
        reveal_strlit("the scene's own: yaw ");
        reveal(plain);
    }
    assert(plain(" pitch "@)) by {
        reveal_strlit(" pitch ");
        reveal(plain);
    }
    assert(plain(" distance "@)) by {
        reveal_strlit(" distance ");
        reveal(plain);
    }
    assert(plain("                 focus "@)) by {
        reveal_strlit("                 focus ");
        reveal(plain);
    }
    assert(plain("under infinite zoom, reported in the canonical period as it renders"@)) by {
        reveal_strlit("under infinite zoom, reported in the canonical period as it renders");
        reveal(plain);
    }
}

proof fn camera_is_plain(subject: Subject)
    ensures
        plain_section(camera_section_of(subject)),
{
    reveal(camera_section_of);
    camera_words();
    assert(plain(origin_text(subject.view is Some, !subject.camera.says_nothing())));
}

proof fn key_words()
    ensures
        plain("short"@),
        plain("+"@),
        plain("-"@),
        plain(" turn"@),
        plain(""@),
        plain("s"@),
        plain("exact, "@),
        plain("\u{b0}"@),
        plain("["@),
        plain("]"@),
        plain("   "@),
        plain("] focus "@),
{
    assert(plain("short"@)) by {
        reveal_strlit("short");
        reveal(plain);
    }
    assert(plain("+"@)) by {
        reveal_strlit("+");
        reveal(plain);
    }
    assert(plain("-"@)) by {
        reveal_strlit("-");
        reveal(plain);
    }
    assert(plain(" turn"@)) by {
        reveal_strlit(" turn");
        reveal(plain);
    }
    assert(plain(""@)) by {
        reveal_strlit("");
        reveal(plain);
    }
    assert(plain("s"@)) by {
        reveal_strlit("s");
        reveal(plain);
    }
    assert(plain("exact, "@)) by {
        reveal_strlit("exact, ");
        reveal(plain);
    }
    assert(plain("\u{b0}"@)) by {
        reveal_strlit("\u{b0}");
        reveal(plain);
    }
    assert(plain("["@)) by {
        reveal_strlit("[");
        reveal(plain);
    }
    assert(plain("]"@)) by {
        reveal_strlit("]");
        reveal(plain);
    }
    assert(plain("   "@)) by {
        reveal_strlit("   ");
        reveal(plain);
    }
    assert(plain("] focus "@)) by {
        reveal_strlit("] focus ");
        reveal(plain);
    }
}

proof fn keys_stay_plain(s: SectionModel, f: Flight, n: nat)
    requires
        plain_section(s),
    ensures
        plain_section(with_keys(s, f, n)),
    decreases n,
{
    if n > 0 {
        key_words();
        keys_stay_plain(s, f, (n - 1) as nat);
        assert(plain(route_text(f.routes@, n - 1)));
        assert(plain(key_line(f, n - 1)));
    }
}

proof fn foci_stay_plain(s: SectionModel, f: Flight, n: nat)
    requires
        plain_section(s),
    ensures
        plain_section(with_foci(s, f, n)),
    decreases n,
{
    if n > 0 {
        key_words();
        foci_stay_plain(s, f, (n - 1) as nat);
    }
}

proof fn path_words()
    ensures
        plain("zoom loop, "@),
        plain(" period"@),
        plain(""@),
        plain("s"@),
        plain(" down per loop"@),
        plain("ping-pong loop"@),
        plain("path"@),
        plain(" keypoint"@),
        plain(", "@),
        plain("key        yaw    pitch     roll   distance   route"@),
        plain("route is how each segment gets to the next key: the short way, or"@),
        plain("that plus whole extra turns"@),
        plain("none authored (the default full-turn turntable applies)"@),
{
    assert(plain("zoom loop, "@)) by {
        reveal_strlit("zoom loop, ");
        reveal(plain);
    }
    assert(plain(" period"@)) by {
        reveal_strlit(" period");
        reveal(plain);
    }
    assert(plain(""@)) by {
        reveal_strlit("");
        reveal(plain);
    }
    assert(plain("s"@)) by {
        reveal_strlit("s");
        reveal(plain);
    }
    assert(plain(" down per loop"@)) by {
        reveal_strlit(" down per loop");
        reveal(plain);
    }
    assert(plain("ping-pong loop"@)) by {
        reveal_strlit("ping-pong loop");
        reveal(plain);
    }
    assert(plain("path"@)) by {
        reveal_strlit("path");
        reveal(plain);
    }
    assert(plain(" keypoint"@)) by {
        reveal_strlit(" keypoint");
        reveal(plain);
    }
    assert(plain(", "@)) by {
        reveal_strlit(", ");
        reveal(plain);
    }
    assert(plain("key        yaw    pitch     roll   distance   route"@)) by {
        reveal_strlit("key        yaw    pitch     roll   distance   route");
        reveal(plain);
    }
    assert(plain("route is how each segment gets to the next key: the short way, or"@)) by {
        reveal_strlit("route is how each segment gets to the next key: the short way, or");
        reveal(plain);
    }
    assert(plain("that plus whole extra turns"@)) by {
        reveal_strlit("that plus whole extra turns");
        reveal(plain);
    }
    assert(plain("none authored (the default full-turn turntable applies)"@)) by {
        reveal_strlit("none authored (the default full-turn turntable applies)");
        reveal(plain);
    }
}

proof fn flight_is_plain(f: Flight)
    requires
        f.loops matches Loops::Other(label) ==> plain(label@),
    ensures
        plain_section(flight_section_of(f)),
{
    path_words();
    let n = f.path.keys@.len();
    assert(plain(loops_text(f.loops)));
    let s = layout::section("path"@).text(
        text::decimal(n) + " keypoint"@ + (if n == 1 {
            ""@
        } else {
            "s"@
        }) + ", "@ + loops_text(f.loops) + ", "@ + quantity::plain_text(
            crate::info::duration_of(f),
            1,
        ) + "s"@,
    ).text("key        yaw    pitch     roll   distance   route"@);
    assert(plain_section(s));
    keys_stay_plain(s, f, n);
    foci_stay_plain(with_keys(s, f, n), f, n);
}

proof fn path_is_plain(scene: Scene)
    requires
        is_plain_scene(scene),
    ensures
        plain_section(path_section_of(scene)),
{
    reveal(path_section_of);
    path_words();
    match scene.camera_path {
        Some(f) => flight_is_plain(f),
        None => {},
    }
}

// ---- the zoom --------------------------------------------------------------

proof fn zoom_words()
    ensures
        plain("zoom"@),
        plain("on   map ["@),
        plain("] "@),
        plain("fixed point"@),
        plain("scale"@),
        plain(" octaves/period, "@),
        plain("\u{b0} twist"@),
        plain("radius"@),
        plain("levels"@),
        plain("octave_falloff"@),
        plain("edge_guard"@),
        plain("guard band"@),
        plain("x-"@),
        plain("x"@),
        plain("of the eye distance, "@),
        plain(" octaves wide"@),
        plain("none"@),
        plain("hard outer edge"@),
        plain("rendered"@),
        plain("periods ("@),
        plain(" octaves)"@),
        plain("BROKEN \u{2014} "@),
{
    assert(plain("zoom"@)) by {
        reveal_strlit("zoom");
        reveal(plain);
    }
    assert(plain("on   map ["@)) by {
        reveal_strlit("on   map [");
        reveal(plain);
    }
    assert(plain("] "@)) by {
        reveal_strlit("] ");
        reveal(plain);
    }
    assert(plain("fixed point"@)) by {
        reveal_strlit("fixed point");
        reveal(plain);
    }
    assert(plain("scale"@)) by {
        reveal_strlit("scale");
        reveal(plain);
    }
    assert(plain(" octaves/period, "@)) by {
        reveal_strlit(" octaves/period, ");
        reveal(plain);
    }
    assert(plain("\u{b0} twist"@)) by {
        reveal_strlit("\u{b0} twist");
        reveal(plain);
    }
    assert(plain("radius"@)) by {
        reveal_strlit("radius");
        reveal(plain);
    }
    assert(plain("levels"@)) by {
        reveal_strlit("levels");
        reveal(plain);
    }
    assert(plain("octave_falloff"@)) by {
        reveal_strlit("octave_falloff");
        reveal(plain);
    }
    assert(plain("edge_guard"@)) by {
        reveal_strlit("edge_guard");
        reveal(plain);
    }
    assert(plain("guard band"@)) by {
        reveal_strlit("guard band");
        reveal(plain);
    }
    assert(plain("x-"@)) by {
        reveal_strlit("x-");
        reveal(plain);
    }
    assert(plain("x"@)) by {
        reveal_strlit("x");
        reveal(plain);
    }
    assert(plain("of the eye distance, "@)) by {
        reveal_strlit("of the eye distance, ");
        reveal(plain);
    }
    assert(plain(" octaves wide"@)) by {
        reveal_strlit(" octaves wide");
        reveal(plain);
    }
    assert(plain("none"@)) by {
        reveal_strlit("none");
        reveal(plain);
    }
    assert(plain("hard outer edge"@)) by {
        reveal_strlit("hard outer edge");
        reveal(plain);
    }
    assert(plain("rendered"@)) by {
        reveal_strlit("rendered");
        reveal(plain);
    }
    assert(plain("periods ("@)) by {
        reveal_strlit("periods (");
        reveal(plain);
    }
    assert(plain(" octaves)"@)) by {
        reveal_strlit(" octaves)");
        reveal(plain);
    }
    assert(plain("BROKEN \u{2014} "@)) by {
        reveal_strlit("BROKEN \u{2014} ");
        reveal(plain);
    }
}

proof fn zoom_rows_are_plain(scene: Scene, asked: scene::ZoomSpec, r: Renorm)
    requires
        is_plain_scene(scene),
    ensures
        plain_section(zoom_rows_of(scene, asked, r)),
{
    zoom_words();
    map_names_are_plain(scene, r.map as int);
}

proof fn verdict_words()
    ensures
        plain("not a similarity \u{2014} the wrap will seam"@),
        plain("band too short \u{2014} see renorm::MIN_RADIUS"@),
        plain("--zoom "@),
        plain(" octaves/period, "@),
        plain("\u{b0} twist"@),
        plain(""@),
        plain("fixed point "@),
        plain("["@),
        plain("] "@),
        plain("no: "@),
        plain("zoom"@),
        plain("off   maps that could carry it, and why the others cannot"@),
        plain("(none \u{2014} infinite zoom needs a pure affine map that contracts"@),
        plain("on all three axes)"@),
{
    assert(plain("not a similarity \u{2014} the wrap will seam"@)) by {
        reveal_strlit("not a similarity \u{2014} the wrap will seam");
        reveal(plain);
    }
    assert(plain("band too short \u{2014} see renorm::MIN_RADIUS"@)) by {
        reveal_strlit("band too short \u{2014} see renorm::MIN_RADIUS");
        reveal(plain);
    }
    assert(plain("--zoom "@)) by {
        reveal_strlit("--zoom ");
        reveal(plain);
    }
    assert(plain(" octaves/period, "@)) by {
        reveal_strlit(" octaves/period, ");
        reveal(plain);
    }
    assert(plain("\u{b0} twist"@)) by {
        reveal_strlit("\u{b0} twist");
        reveal(plain);
    }
    assert(plain(""@)) by {
        reveal_strlit("");
        reveal(plain);
    }
    assert(plain("fixed point "@)) by {
        reveal_strlit("fixed point ");
        reveal(plain);
    }
    assert(plain("["@)) by {
        reveal_strlit("[");
        reveal(plain);
    }
    assert(plain("] "@)) by {
        reveal_strlit("] ");
        reveal(plain);
    }
    assert(plain("no: "@)) by {
        reveal_strlit("no: ");
        reveal(plain);
    }
    assert(plain("zoom"@)) by {
        reveal_strlit("zoom");
        reveal(plain);
    }
    assert(plain("off   maps that could carry it, and why the others cannot"@)) by {
        reveal_strlit("off   maps that could carry it, and why the others cannot");
        reveal(plain);
    }
    assert(plain("(none \u{2014} infinite zoom needs a pure affine map that contracts"@)) by {
        reveal_strlit("(none \u{2014} infinite zoom needs a pure affine map that contracts");
        reveal(plain);
    }
    assert(plain("on all three axes)"@)) by {
        reveal_strlit("on all three axes)");
        reveal(plain);
    }
}

proof fn reasons_are_plain(e: Seq<char>)
    requires
        plain(e),
    ensures
        plain(bare_reason(e)),
{
    assert(plain("uses "@)) by {
        reveal_strlit("uses ");
        reveal(plain);
    }
    reveal_strlit(" uses ");
    text::first_of_finds(e, "; "@);
    match text::first_of(e, "; "@) {
        Some(i) => {
            pieces_are_plain(e, i);
            let head = e.take(i);
            text::first_of_finds(head, " uses "@);
            match text::first_of(head, " uses "@) {
                Some(k) => pieces_are_plain(head, k + 6),
                None => {},
            }
        },
        None => {},
    }
}

proof fn a_verdict_stays_plain(s: SectionModel, scene: Scene, i: int)
    requires
        plain_section(s),
        is_plain_scene(scene),
        0 <= i < scene.transforms@.len(),
        scene.zoom_trials@.len() == scene.transforms@.len(),
    ensures
        plain_section(with_verdict(s, scene, i)),
{
    verdict_words();
    assert(plain(scene.transforms@[i].variations@));
    assert(plain(zoom_reference(scene, i)));
    match scene.zoom_trials@[i] {
        Ok(r) => {
            assert(plain(crate::info::flaw_text(r)));
        },
        Err(e) => {
            assert(plain(e@));
            reasons_are_plain(e@);
        },
    }
}

proof fn verdicts_stay_plain(s: SectionModel, scene: Scene, n: nat)
    requires
        plain_section(s),
        is_plain_scene(scene),
        n <= scene.transforms@.len(),
        scene.zoom_trials@.len() == scene.transforms@.len(),
    ensures
        plain_section(with_verdicts(s, scene, n)),
    decreases n,
{
    if n > 0 {
        verdicts_stay_plain(s, scene, (n - 1) as nat);
        a_verdict_stays_plain(with_verdicts(s, scene, (n - 1) as nat), scene, n - 1);
    }
}

proof fn zoom_is_plain(scene: Scene)
    requires
        is_plain_scene(scene),
        scene.zoom_trials@.len() == scene.transforms@.len(),
    ensures
        plain_section(zoom_section_of(scene)),
{
    reveal(zoom_section_of);
    match scene.zoom {
        None => {
            verdict_words();
            let s = layout::section("zoom"@).text(
                "off   maps that could carry it, and why the others cannot"@,
            );
            assert(plain_section(s));
            verdicts_stay_plain(s, scene, scene.transforms@.len());
        },
        Some(z) => match z.built {
            Ok(r) => zoom_rows_are_plain(scene, z.spec, r),
            Err(e) => {
                zoom_words();
            },
        },
    }
}

proof fn zoom_note_words()
    ensures
        plain("zoom"@),
        plain("edge-guard ramp reaches into the view; raise zoom.radius"@),
        plain("edge_guard is 0 \u{2014} the wrap will step at the band edge"@),
        plain("band too short (radius "@),
        plain("x the eye distance, needs "@),
        plain("x) \u{2014} material blinks out at each wrap"@),
        plain("map is not a similarity (defect "@),
        plain(") \u{2014} the wrap will show a seam"@),
        plain("the zoom will not build: "@),
{
    assert(plain("zoom"@)) by {
        reveal_strlit("zoom");
        reveal(plain);
    }
    assert(plain("edge-guard ramp reaches into the view; raise zoom.radius"@)) by {
        reveal_strlit("edge-guard ramp reaches into the view; raise zoom.radius");
        reveal(plain);
    }
    assert(plain("edge_guard is 0 \u{2014} the wrap will step at the band edge"@)) by {
        reveal_strlit("edge_guard is 0 \u{2014} the wrap will step at the band edge");
        reveal(plain);
    }
    assert(plain("band too short (radius "@)) by {
        reveal_strlit("band too short (radius ");
        reveal(plain);
    }
    assert(plain("x the eye distance, needs "@)) by {
        reveal_strlit("x the eye distance, needs ");
        reveal(plain);
    }
    assert(plain("x) \u{2014} material blinks out at each wrap"@)) by {
        reveal_strlit("x) \u{2014} material blinks out at each wrap");
        reveal(plain);
    }
    assert(plain("map is not a similarity (defect "@)) by {
        reveal_strlit("map is not a similarity (defect ");
        reveal(plain);
    }
    assert(plain(") \u{2014} the wrap will show a seam"@)) by {
        reveal_strlit(") \u{2014} the wrap will show a seam");
        reveal(plain);
    }
    assert(plain("the zoom will not build: "@)) by {
        reveal_strlit("the zoom will not build: ");
        reveal(plain);
    }
}

proof fn zoom_notes_are_plain(scene: Scene)
    requires
        is_plain_scene(scene),
    ensures
        plain_notes(zoom_notes(scene)),
{
    reveal(zoom_notes);
    zoom_note_words();
    match scene.zoom {
        None => {},
        Some(z) => match z.built {
            Ok(r) => {
                assert(plain_notes(renorm_notes(r)));
            },
            Err(e) => {},
        },
    }
}

// ---- the report ------------------------------------------------------------

proof fn all_notes_are_plain(subject: Subject)
    requires
        is_plain_subject(subject),
    ensures
        plain_notes(all_notes(subject)),
{
    let scene = *subject.scene;
    match subject.view {
        Some(v) => view_notes_are_plain(*v.1, scene),
        None => {},
    }
    shape_notes_are_plain(scene, subject.framing());
    maps_notes_are_plain(scene, scene.transforms@.len());
    colour_notes_are_plain(scene);
    zoom_notes_are_plain(scene);
    assert(plain_notes(layer_notes(subject)));
    assert(plain_notes(detail_notes(subject)));
}

proof fn sections_are_plain(subject: Subject)
    requires
        is_plain_subject(subject),
        subject.is_measurable(),
    ensures
        forall|i: int|
            0 <= i < sections_of(subject).len() ==> is_clean_section(
                #[trigger] sections_of(subject)[i],
            ) && is_paintable(sections_of(subject)[i]),
{
    let scene = *subject.scene;
    scene_is_plain(subject);
    all_notes_are_plain(subject);
    notes_are_plain(all_notes(subject));
    set_is_plain(subject);
    match subject.view {
        Some(v) => view_is_plain(v.0@, *v.1, scene),
        None => {},
    }
    shape_is_plain(scene);
    maps_are_plain(scene);
    render_is_plain(scene);
    colours_are_plain(scene);
    camera_is_plain(subject);
    path_is_plain(scene);
    zoom_is_plain(scene);
    let (layers, details) = (layers_of(subject), details_of(subject));
    assert forall|i: int| 0 <= i < layers.len() implies plain_section(#[trigger] layers[i]) by {}
    assert forall|i: int| 0 <= i < details.len() implies plain_section(#[trigger] details[i]) by {}
    let all = sections_of(subject);
    assert forall|i: int| 0 <= i < all.len() implies is_clean_section(#[trigger] all[i])
        && is_paintable(all[i]) by {
        if i >= 2 + layers.len() {
            assert(all[i] == details[i - 2 - layers.len()]);
        } else if i >= 2 {
            assert(all[i] == layers[i - 2]);
        }
        assert(plain_section(all[i]));
        reveal(plain_section);
    }
}

/// A report without colour holds no escape, where nothing that it is told holds
/// one.
pub proof fn a_plain_report_has_no_escape(subject: Subject)
    requires
        is_plain_subject(subject),
        subject.is_measurable(),
    ensures
        clean(layout::report_text(sections_of(subject), false)),
{
    sections_are_plain(subject);
    paint::a_plain_page_has_no_escape(sections_of(subject));
}

proof fn colours_are_shown(scene: Scene) -> (k: int)
    ensures
        0 < k < colour_section_of(scene).rows.len(),
        colour_section_of(scene).rows[0] !is Swatch,
        paint::shows_colours(colour_section_of(scene).rows[k]),
{
    reveal(colour_section_of);
    reveal_strlit("\u{1b}[0m");
    let mix = scene.color_mode == ColorMode::Mix;
    let shown = shown_colors(scene);
    let n = ((shown.len() + PER_LINE - 1) / PER_LINE as int) as nat;
    let label = if mix {
        "colours"@
    } else {
        "ramp"@
    };
    let s = layout::section("colour"@).two(
        layout::labelled("mode"@, text::padded_left(scene.color_mode.name_text(), 8)),
        layout::remark(mode_text(scene)),
    ).three(
        layout::labelled("speed"@, quantity::fixed_text(scene.color_speed as int, 2, 8)),
        layout::labelled("falloff"@, quantity::fixed_text(scene.color_falloff as int, 2, 8)),
        layout::labelled("contrast"@, quantity::fixed_text(scene.color_contrast as int, 2, 8)),
    ).two(
        layout::labelled(
            "luminance"@,
            quantity::fixed_text(scene.gradient.mean_luminance as int, 2, 8),
        ),
        layout::labelled("swing"@, quantity::fixed_text(scene.gradient.swing as int, 2, 8)),
    );
    let ramp = with_ramp(s, label, shown, n);
    a_ramp_comes_below(s, label, shown, n);
    let k = ramp.rows.len() as int;
    let blocks = text::padded_right(""@, 8) + (if mix {
        quantity::swatch_text(scene.colors@, 7)
    } else {
        quantity::swatch_text(scene.gradient.swatch@, 1)
    });
    let end = blocks.len() - 4;
    assert(blocks[end] == paint::ESCAPE);
    assert(blocks.last() == 'm');
    assert(text::trimmed_end(blocks) == blocks);
    assert(!clean(blocks));
    assert(colour_section_of(scene).rows[k] == layout::RowModel::Swatch(blocks));
    assert(colour_section_of(scene).rows[0] == s.rows[0]);
    k
}

proof fn a_ramp_comes_below(s: SectionModel, label: Seq<char>, colors: Seq<Color>, n: nat)
    ensures
        with_ramp(s, label, colors, n).rows.len() >= s.rows.len(),
        forall|i: int|
            0 <= i < s.rows.len() ==> #[trigger] with_ramp(s, label, colors, n).rows[i] == s.rows[i],
    decreases n,
{
    if n > 0 {
        a_ramp_comes_below(s, label, colors, (n - 1) as nat);
    }
}

/// A report with colour holds an escape, whatever it is about.
pub proof fn a_coloured_report_has_escapes(subject: Subject)
    ensures
        !clean(layout::report_text(sections_of(subject), true)),
{
    let k = colours_are_shown(*subject.scene);
    let j: int = 5 + layers_of(subject).len() as int;
    assert(details_of(subject)[3] == colour_section_of(*subject.scene));
    assert(sections_of(subject)[j] == details_of(subject)[3]);
    paint::a_coloured_page_has_escapes(sections_of(subject), j, k);
}

/// Colour costs a report no line: the coloured report is its lines, and once the
/// escape sequences are cut out of them, the lines of the plain report are among
/// them, whole and in the same order.
pub proof fn whole_lines_survive_colour(subject: Subject)
    requires
        is_plain_subject(subject),
        subject.is_measurable(),
    ensures
        ({
            let coloured = page_lines(sections_of(subject), true);
            let plainly = page_lines(sections_of(subject), false);
            &&& layout::report_text(sections_of(subject), true) == paint::joined(coloured)
            &&& layout::report_text(sections_of(subject), false) == paint::joined(plainly)
            &&& lines_within(plainly, cut_lines(coloured))
        }),
{
    let sections = sections_of(subject);
    sections_are_plain(subject);
    paint::a_page_is_its_lines(sections, true);
    paint::a_page_is_its_lines(sections, false);
    paint::a_plain_page_has_no_escape(sections);
    paint::whole_lines_survive(sections);
}

} // verus!
