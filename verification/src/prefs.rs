//! Preferences that follow the person and not the artwork.

use crate::offline::UNIT;
use vstd::prelude::*;

verus! {

/// Which of the panel windows are open.
#[derive(Clone, Copy, Debug, PartialEq, Eq, Structural)]
pub struct PanelPrefs {
    pub transforms_open: bool,
    pub explore_open: bool,
    pub camera_open: bool,
    pub render_open: bool,
    /// The window of key bindings.
    pub help_open: bool,
    /// The scene browser.
    pub browser_open: bool,
}

impl Default for PanelPrefs {
    fn default() -> (p: PanelPrefs)
        ensures
            p == (PanelPrefs {
                transforms_open: false,
                explore_open: false,
                camera_open: false,
                render_open: false,
                help_open: false,
                browser_open: false,
            }),
    {
        PanelPrefs {
            transforms_open: false,
            explore_open: false,
            camera_open: false,
            render_open: false,
            help_open: false,
            browser_open: false,
        }
    }
}

/// Which axis a horizontal orbit drag turns about.
#[derive(Clone, Copy, Debug, PartialEq, Eq, Structural)]
pub enum OrbitStyle {
    /// The screen's.
    Trackball,
    /// The world's.
    Turntable,
}

/// Where a panel window was left: position and size, in points.
#[derive(Clone, Copy, Debug, PartialEq, Eq, Structural)]
pub struct Placement {
    pub x: i64,
    pub y: i64,
    pub width: i64,
    pub height: i64,
}

/// A person's preferences. Real numbers are in units of `1 / UNIT`.
pub struct Prefs {
    /// Drag down to tilt the scene's top toward you.
    pub invert_pitch: bool,
    pub orbit_style: OrbitStyle,
    pub panels: PanelPrefs,
    /// Strength of random mutations.
    pub mutate_strength: i64,
    /// Multiplier on every panel's size.
    pub ui_scale: i64,
    /// Who to credit on scenes made here.
    pub author: Option<String>,
    /// Point-buffer capacity; it loses to an explicit flag.
    pub point_count: Option<usize>,
    /// Threads that a render job's encoders may use.
    pub threads: Option<usize>,
    /// How much of the machine's graphics a render job may take.
    pub gpu_share: Option<i64>,
    /// Where each panel window was left, by name.
    pub window_geometry: Vec<(String, Placement)>,
}

impl Default for Prefs {
    fn default() -> (p: Prefs)
        ensures
            !p.invert_pitch,
            p.orbit_style == OrbitStyle::Trackball,
            p.panels == (PanelPrefs {
                transforms_open: false,
                explore_open: false,
                camera_open: false,
                render_open: false,
                help_open: false,
                browser_open: false,
            }),
            p.mutate_strength == UNIT,
            p.ui_scale == UNIT,
            p.author is None,
            p.point_count is None,
            p.threads is None,
            p.gpu_share is None,
            p.window_geometry@.len() == 0,
    {
        Prefs {
            invert_pitch: false,
            orbit_style: OrbitStyle::Trackball,
            panels: PanelPrefs::default(),
            mutate_strength: UNIT as i64,
            ui_scale: UNIT as i64,
            author: None,
            point_count: None,
            threads: None,
            gpu_share: None,
            window_geometry: Vec::new(),
        }
    }
}

/// A name inside a directory.
pub open spec fn within(dir: Seq<char>, name: Seq<char>) -> Seq<char> {
    if dir.len() == 0 || dir.last() == '/' {
        dir + name
    } else {
        dir + "/"@ + name
    }
}

/// Where preferences are kept: under the configuration directory that was set,
/// or else the one in the home directory.
pub open spec fn prefs_file(config: Option<Seq<char>>, home: Option<Seq<char>>) -> Option<Seq<char>> {
    match (config, home) {
        (Some(c), _) => Some(within(within(c, "fracturize"@), "prefs.toml"@)),
        (None, Some(h)) => Some(
            within(within(within(h, ".config"@), "fracturize"@), "prefs.toml"@),
        ),
        (None, None) => None,
    }
}

fn push_within(dir: &mut String, name: &str)
    ensures
        final(dir)@ == within(old(dir)@, name@),
{
    let v = crate::text::chars_of(dir.as_str());
    let n: usize = v.len();
    if n > 0 && v[n - 1] != '/' {
        dir.append("/");
    }
    dir.append(name);
    assert(dir@ =~= within(old(dir)@, name@));
}

/// Where preferences are kept, from the two directories as the environment
/// gives them. Nowhere, where it gives neither.
pub fn prefs_path(config: Option<&str>, home: Option<&str>) -> (p: Option<String>)
    ensures
        match prefs_file(
            match config {
                Some(c) => Some(c@),
                None => None,
            },
            match home {
                Some(h) => Some(h@),
                None => None,
            },
        ) {
            Some(f) => p is Some && (p->0)@ == f,
            None => p is None,
        },
{
    let mut path = String::new();
    match (config, home) {
        (Some(c), _) => {
            path.append(c);
            assert(path@ =~= c@);
        },
        (None, Some(h)) => {
            path.append(h);
            assert(path@ =~= h@);
            push_within(&mut path, ".config");
        },
        (None, None) => {
            return None;
        },
    }
    push_within(&mut path, "fracturize");
    push_within(&mut path, "prefs.toml");
    Some(path)
}

/// Preferences stand in their own directory: in the one for configuration where
/// there is one, else under the home directory's.
pub proof fn preferences_stand_in_their_own_directory(dir: Seq<char>, home: Option<Seq<char>>)
    requires
        dir.len() > 0,
        dir.last() != '/',
    ensures
        prefs_file(Some(dir), home) == Some(dir + "/"@ + "fracturize"@ + "/"@ + "prefs.toml"@),
        prefs_file(None, Some(dir)) == Some(
            dir + "/"@ + ".config"@ + "/"@ + "fracturize"@ + "/"@ + "prefs.toml"@,
        ),
        prefs_file(None, None) is None,
{
    reveal_strlit("fracturize");
    reveal_strlit(".config");
}

} // verus!
