//! The built-in gradients.
//!
//! Two rules every entry follows. Luminance goes somewhere: with no lights the
//! palette is the shading, and a gradient at one brightness renders flat. And
//! luminance rises and falls once: the colour map is cyclic, so a ramp from
//! dark to bright would put a seam at its beginning.

use super::{BodyModel, Ink, Interpolate, Palette, PaletteModel, Stop};
use crate::offline::UNIT;
use crate::rng;
use crate::text;
use rand::rngs::StdRng;
use vstd::prelude::*;

verus! {

/// One library gradient: its stops, and a line about what it is for.
pub struct Def {
    pub name: &'static str,
    pub blurb: &'static str,
    pub stops: Vec<Stop>,
}

/// What a library gradient holds.
pub struct DefModel {
    pub name: Seq<char>,
    pub blurb: Seq<char>,
    pub stops: Seq<Stop>,
}

impl View for Def {
    type V = DefModel;

    open spec fn view(&self) -> DefModel {
        DefModel { name: self.name@, blurb: self.blurb@, stops: self.stops@ }
    }
}

/// A stop at a position, of the colour that a display shows by these bytes.
pub open spec fn tone(at: i64, red: u8, green: u8, blue: u8) -> Stop {
    Stop { at, color: Ink::of(red, green, blue) }
}

fn stop(at: i64, red: u8, green: u8, blue: u8) -> (s: Stop)
    ensures
        s == tone(at, red, green, blue),
{
    Stop { at, color: Ink::shown(red, green, blue) }
}

/// Ember: banked fire: maroon through orange to pale ash.
pub open spec fn ember() -> DefModel {
    DefModel {
        name: "ember"@,
        blurb: "banked fire: maroon through orange to pale ash"@,
        stops: seq![
            tone(0, 12, 4, 10),
            tone(180_000_000, 70, 14, 20),
            tone(380_000_000, 178, 56, 24),
            tone(550_000_000, 240, 138, 42),
            tone(700_000_000, 252, 222, 158),
            tone(850_000_000, 120, 46, 44),
        ],
    }
}

fn make_ember() -> (d: Def)
    ensures
        d@ == ember(),
        super::in_order(d@.stops),
        within(d@.stops),
{
    let mut stops: Vec<Stop> = Vec::new();
    stops.push(stop(0, 12, 4, 10));
    stops.push(stop(180_000_000, 70, 14, 20));
    stops.push(stop(380_000_000, 178, 56, 24));
    stops.push(stop(550_000_000, 240, 138, 42));
    stops.push(stop(700_000_000, 252, 222, 158));
    stops.push(stop(850_000_000, 120, 46, 44));
    assert(stops@ =~= ember().stops);
    Def { name: "ember", blurb: "banked fire: maroon through orange to pale ash", stops }
}

/// Lava: black through violet and red to a white-hot core.
pub open spec fn lava() -> DefModel {
    DefModel {
        name: "lava"@,
        blurb: "black through violet and red to a white-hot core"@,
        stops: seq![
            tone(0, 4, 2, 12),
            tone(160_000_000, 48, 12, 76),
            tone(340_000_000, 140, 22, 84),
            tone(500_000_000, 222, 74, 40),
            tone(640_000_000, 252, 176, 60),
            tone(760_000_000, 255, 246, 210),
            tone(900_000_000, 58, 16, 52),
        ],
    }
}

fn make_lava() -> (d: Def)
    ensures
        d@ == lava(),
        super::in_order(d@.stops),
        within(d@.stops),
{
    let mut stops: Vec<Stop> = Vec::new();
    stops.push(stop(0, 4, 2, 12));
    stops.push(stop(160_000_000, 48, 12, 76));
    stops.push(stop(340_000_000, 140, 22, 84));
    stops.push(stop(500_000_000, 222, 74, 40));
    stops.push(stop(640_000_000, 252, 176, 60));
    stops.push(stop(760_000_000, 255, 246, 210));
    stops.push(stop(900_000_000, 58, 16, 52));
    assert(stops@ =~= lava().stops);
    Def { name: "lava", blurb: "black through violet and red to a white-hot core", stops }
}

/// Sunset: indigo, violet, coral, gold — the wide warm sweep.
pub open spec fn sunset() -> DefModel {
    DefModel {
        name: "sunset"@,
        blurb: "indigo, violet, coral, gold \u{2014} the wide warm sweep"@,
        stops: seq![
            tone(0, 18, 16, 52),
            tone(200_000_000, 76, 42, 118),
            tone(400_000_000, 178, 78, 122),
            tone(580_000_000, 242, 132, 92),
            tone(740_000_000, 252, 208, 122),
            tone(880_000_000, 64, 40, 86),
        ],
    }
}

fn make_sunset() -> (d: Def)
    ensures
        d@ == sunset(),
        super::in_order(d@.stops),
        within(d@.stops),
{
    let mut stops: Vec<Stop> = Vec::new();
    stops.push(stop(0, 18, 16, 52));
    stops.push(stop(200_000_000, 76, 42, 118));
    stops.push(stop(400_000_000, 178, 78, 122));
    stops.push(stop(580_000_000, 242, 132, 92));
    stops.push(stop(740_000_000, 252, 208, 122));
    stops.push(stop(880_000_000, 64, 40, 86));
    assert(stops@ =~= sunset().stops);
    Def { name: "sunset", blurb: "indigo, violet, coral, gold \u{2014} the wide warm sweep", stops }
}

/// Copper: oxidised metal: brown, rust, a bright rim, verdigris.
pub open spec fn copper() -> DefModel {
    DefModel {
        name: "copper"@,
        blurb: "oxidised metal: brown, rust, a bright rim, verdigris"@,
        stops: seq![
            tone(0, 26, 14, 10),
            tone(220_000_000, 96, 44, 22),
            tone(420_000_000, 186, 104, 48),
            tone(580_000_000, 246, 196, 138),
            tone(720_000_000, 128, 148, 122),
            tone(880_000_000, 42, 46, 40),
        ],
    }
}

fn make_copper() -> (d: Def)
    ensures
        d@ == copper(),
        super::in_order(d@.stops),
        within(d@.stops),
{
    let mut stops: Vec<Stop> = Vec::new();
    stops.push(stop(0, 26, 14, 10));
    stops.push(stop(220_000_000, 96, 44, 22));
    stops.push(stop(420_000_000, 186, 104, 48));
    stops.push(stop(580_000_000, 246, 196, 138));
    stops.push(stop(720_000_000, 128, 148, 122));
    stops.push(stop(880_000_000, 42, 46, 40));
    assert(stops@ =~= copper().stops);
    Def { name: "copper", blurb: "oxidised metal: brown, rust, a bright rim, verdigris", stops }
}

/// Autumn: leaf litter: olive, amber, scarlet, bark.
pub open spec fn autumn() -> DefModel {
    DefModel {
        name: "autumn"@,
        blurb: "leaf litter: olive, amber, scarlet, bark"@,
        stops: seq![
            tone(0, 22, 20, 10),
            tone(200_000_000, 92, 88, 30),
            tone(380_000_000, 200, 148, 40),
            tone(540_000_000, 214, 88, 34),
            tone(700_000_000, 244, 214, 160),
            tone(860_000_000, 56, 34, 22),
        ],
    }
}

fn make_autumn() -> (d: Def)
    ensures
        d@ == autumn(),
        super::in_order(d@.stops),
        within(d@.stops),
{
    let mut stops: Vec<Stop> = Vec::new();
    stops.push(stop(0, 22, 20, 10));
    stops.push(stop(200_000_000, 92, 88, 30));
    stops.push(stop(380_000_000, 200, 148, 40));
    stops.push(stop(540_000_000, 214, 88, 34));
    stops.push(stop(700_000_000, 244, 214, 160));
    stops.push(stop(860_000_000, 56, 34, 22));
    assert(stops@ =~= autumn().stops);
    Def { name: "autumn", blurb: "leaf litter: olive, amber, scarlet, bark", stops }
}

/// Sodium: streetlight monochrome — one hue, all the shading.
pub open spec fn sodium() -> DefModel {
    DefModel {
        name: "sodium"@,
        blurb: "streetlight monochrome \u{2014} one hue, all the shading"@,
        stops: seq![
            tone(0, 8, 4, 0),
            tone(250_000_000, 86, 38, 4),
            tone(450_000_000, 188, 106, 12),
            tone(620_000_000, 252, 190, 90),
            tone(780_000_000, 255, 238, 194),
            tone(920_000_000, 60, 26, 4),
        ],
    }
}

fn make_sodium() -> (d: Def)
    ensures
        d@ == sodium(),
        super::in_order(d@.stops),
        within(d@.stops),
{
    let mut stops: Vec<Stop> = Vec::new();
    stops.push(stop(0, 8, 4, 0));
    stops.push(stop(250_000_000, 86, 38, 4));
    stops.push(stop(450_000_000, 188, 106, 12));
    stops.push(stop(620_000_000, 252, 190, 90));
    stops.push(stop(780_000_000, 255, 238, 194));
    stops.push(stop(920_000_000, 60, 26, 4));
    assert(stops@ =~= sodium().stops);
    Def { name: "sodium", blurb: "streetlight monochrome \u{2014} one hue, all the shading", stops }
}

/// Ocean: navy to teal to foam, the deep-water ramp.
pub open spec fn ocean() -> DefModel {
    DefModel {
        name: "ocean"@,
        blurb: "navy to teal to foam, the deep-water ramp"@,
        stops: seq![
            tone(0, 4, 10, 34),
            tone(200_000_000, 10, 48, 88),
            tone(400_000_000, 16, 108, 128),
            tone(580_000_000, 64, 176, 168),
            tone(740_000_000, 206, 240, 232),
            tone(900_000_000, 12, 40, 70),
        ],
    }
}

fn make_ocean() -> (d: Def)
    ensures
        d@ == ocean(),
        super::in_order(d@.stops),
        within(d@.stops),
{
    let mut stops: Vec<Stop> = Vec::new();
    stops.push(stop(0, 4, 10, 34));
    stops.push(stop(200_000_000, 10, 48, 88));
    stops.push(stop(400_000_000, 16, 108, 128));
    stops.push(stop(580_000_000, 64, 176, 168));
    stops.push(stop(740_000_000, 206, 240, 232));
    stops.push(stop(900_000_000, 12, 40, 70));
    assert(stops@ =~= ocean().stops);
    Def { name: "ocean", blurb: "navy to teal to foam, the deep-water ramp", stops }
}

/// Ice: cold and bright: deep blue through cyan to white.
pub open spec fn ice() -> DefModel {
    DefModel {
        name: "ice"@,
        blurb: "cold and bright: deep blue through cyan to white"@,
        stops: seq![
            tone(0, 6, 12, 40),
            tone(220_000_000, 24, 62, 130),
            tone(440_000_000, 72, 148, 216),
            tone(600_000_000, 160, 216, 244),
            tone(740_000_000, 248, 252, 255),
            tone(900_000_000, 20, 40, 92),
        ],
    }
}

fn make_ice() -> (d: Def)
    ensures
        d@ == ice(),
        super::in_order(d@.stops),
        within(d@.stops),
{
    let mut stops: Vec<Stop> = Vec::new();
    stops.push(stop(0, 6, 12, 40));
    stops.push(stop(220_000_000, 24, 62, 130));
    stops.push(stop(440_000_000, 72, 148, 216));
    stops.push(stop(600_000_000, 160, 216, 244));
    stops.push(stop(740_000_000, 248, 252, 255));
    stops.push(stop(900_000_000, 20, 40, 92));
    assert(stops@ =~= ice().stops);
    Def { name: "ice", blurb: "cold and bright: deep blue through cyan to white", stops }
}

/// Cobalt: saturated blue with a hot white centre.
pub open spec fn cobalt() -> DefModel {
    DefModel {
        name: "cobalt"@,
        blurb: "saturated blue with a hot white centre"@,
        stops: seq![
            tone(0, 2, 2, 18),
            tone(240_000_000, 16, 24, 108),
            tone(460_000_000, 40, 78, 208),
            tone(600_000_000, 128, 176, 250),
            tone(720_000_000, 236, 244, 255),
            tone(880_000_000, 10, 14, 62),
        ],
    }
}

fn make_cobalt() -> (d: Def)
    ensures
        d@ == cobalt(),
        super::in_order(d@.stops),
        within(d@.stops),
{
    let mut stops: Vec<Stop> = Vec::new();
    stops.push(stop(0, 2, 2, 18));
    stops.push(stop(240_000_000, 16, 24, 108));
    stops.push(stop(460_000_000, 40, 78, 208));
    stops.push(stop(600_000_000, 128, 176, 250));
    stops.push(stop(720_000_000, 236, 244, 255));
    stops.push(stop(880_000_000, 10, 14, 62));
    assert(stops@ =~= cobalt().stops);
    Def { name: "cobalt", blurb: "saturated blue with a hot white centre", stops }
}

/// Jade: stone green: dark, mineral, one pale highlight.
pub open spec fn jade() -> DefModel {
    DefModel {
        name: "jade"@,
        blurb: "stone green: dark, mineral, one pale highlight"@,
        stops: seq![
            tone(0, 6, 18, 14),
            tone(220_000_000, 18, 62, 48),
            tone(440_000_000, 46, 124, 96),
            tone(600_000_000, 128, 194, 156),
            tone(740_000_000, 232, 246, 232),
            tone(900_000_000, 14, 44, 36),
        ],
    }
}

fn make_jade() -> (d: Def)
    ensures
        d@ == jade(),
        super::in_order(d@.stops),
        within(d@.stops),
{
    let mut stops: Vec<Stop> = Vec::new();
    stops.push(stop(0, 6, 18, 14));
    stops.push(stop(220_000_000, 18, 62, 48));
    stops.push(stop(440_000_000, 46, 124, 96));
    stops.push(stop(600_000_000, 128, 194, 156));
    stops.push(stop(740_000_000, 232, 246, 232));
    stops.push(stop(900_000_000, 14, 44, 36));
    assert(stops@ =~= jade().stops);
    Def { name: "jade", blurb: "stone green: dark, mineral, one pale highlight", stops }
}

/// Fern: undergrowth: deep green to yellow-green to cream.
pub open spec fn fern() -> DefModel {
    DefModel {
        name: "fern"@,
        blurb: "undergrowth: deep green to yellow-green to cream"@,
        stops: seq![
            tone(0, 10, 20, 12),
            tone(220_000_000, 30, 74, 34),
            tone(420_000_000, 96, 140, 44),
            tone(580_000_000, 186, 198, 78),
            tone(740_000_000, 244, 246, 206),
            tone(900_000_000, 24, 48, 26),
        ],
    }
}

fn make_fern() -> (d: Def)
    ensures
        d@ == fern(),
        super::in_order(d@.stops),
        within(d@.stops),
{
    let mut stops: Vec<Stop> = Vec::new();
    stops.push(stop(0, 10, 20, 12));
    stops.push(stop(220_000_000, 30, 74, 34));
    stops.push(stop(420_000_000, 96, 140, 44));
    stops.push(stop(580_000_000, 186, 198, 78));
    stops.push(stop(740_000_000, 244, 246, 206));
    stops.push(stop(900_000_000, 24, 48, 26));
    assert(stops@ =~= fern().stops);
    Def { name: "fern", blurb: "undergrowth: deep green to yellow-green to cream", stops }
}

/// Amethyst: violet through orchid to a chalk highlight.
pub open spec fn amethyst() -> DefModel {
    DefModel {
        name: "amethyst"@,
        blurb: "violet through orchid to a chalk highlight"@,
        stops: seq![
            tone(0, 12, 6, 24),
            tone(220_000_000, 56, 24, 92),
            tone(440_000_000, 122, 62, 168),
            tone(600_000_000, 190, 138, 220),
            tone(740_000_000, 242, 232, 250),
            tone(900_000_000, 34, 16, 56),
        ],
    }
}

fn make_amethyst() -> (d: Def)
    ensures
        d@ == amethyst(),
        super::in_order(d@.stops),
        within(d@.stops),
{
    let mut stops: Vec<Stop> = Vec::new();
    stops.push(stop(0, 12, 6, 24));
    stops.push(stop(220_000_000, 56, 24, 92));
    stops.push(stop(440_000_000, 122, 62, 168));
    stops.push(stop(600_000_000, 190, 138, 220));
    stops.push(stop(740_000_000, 242, 232, 250));
    stops.push(stop(900_000_000, 34, 16, 56));
    assert(stops@ =~= amethyst().stops);
    Def { name: "amethyst", blurb: "violet through orchid to a chalk highlight", stops }
}

/// Bloom: pink and green, complementary, deliberately loud.
pub open spec fn bloom() -> DefModel {
    DefModel {
        name: "bloom"@,
        blurb: "pink and green, complementary, deliberately loud"@,
        stops: seq![
            tone(0, 24, 10, 26),
            tone(180_000_000, 128, 26, 88),
            tone(340_000_000, 232, 96, 150),
            tone(500_000_000, 252, 218, 226),
            tone(660_000_000, 124, 190, 122),
            tone(820_000_000, 28, 78, 52),
        ],
    }
}

fn make_bloom() -> (d: Def)
    ensures
        d@ == bloom(),
        super::in_order(d@.stops),
        within(d@.stops),
{
    let mut stops: Vec<Stop> = Vec::new();
    stops.push(stop(0, 24, 10, 26));
    stops.push(stop(180_000_000, 128, 26, 88));
    stops.push(stop(340_000_000, 232, 96, 150));
    stops.push(stop(500_000_000, 252, 218, 226));
    stops.push(stop(660_000_000, 124, 190, 122));
    stops.push(stop(820_000_000, 28, 78, 52));
    assert(stops@ =~= bloom().stops);
    Def { name: "bloom", blurb: "pink and green, complementary, deliberately loud", stops }
}

/// Peacock: teal to gold across the wheel, jewelled.
pub open spec fn peacock() -> DefModel {
    DefModel {
        name: "peacock"@,
        blurb: "teal to gold across the wheel, jewelled"@,
        stops: seq![
            tone(0, 6, 20, 28),
            tone(180_000_000, 12, 82, 96),
            tone(360_000_000, 26, 150, 148),
            tone(520_000_000, 162, 208, 154),
            tone(660_000_000, 238, 194, 88),
            tone(820_000_000, 116, 58, 32),
        ],
    }
}

fn make_peacock() -> (d: Def)
    ensures
        d@ == peacock(),
        super::in_order(d@.stops),
        within(d@.stops),
{
    let mut stops: Vec<Stop> = Vec::new();
    stops.push(stop(0, 6, 20, 28));
    stops.push(stop(180_000_000, 12, 82, 96));
    stops.push(stop(360_000_000, 26, 150, 148));
    stops.push(stop(520_000_000, 162, 208, 154));
    stops.push(stop(660_000_000, 238, 194, 88));
    stops.push(stop(820_000_000, 116, 58, 32));
    assert(stops@ =~= peacock().stops);
    Def { name: "peacock", blurb: "teal to gold across the wheel, jewelled", stops }
}

/// Neon: black, magenta, cyan, white — maximum chroma.
pub open spec fn neon() -> DefModel {
    DefModel {
        name: "neon"@,
        blurb: "black, magenta, cyan, white \u{2014} maximum chroma"@,
        stops: seq![
            tone(0, 4, 0, 10),
            tone(180_000_000, 126, 0, 128),
            tone(340_000_000, 240, 40, 200),
            tone(500_000_000, 255, 255, 255),
            tone(660_000_000, 40, 224, 240),
            tone(820_000_000, 0, 48, 96),
        ],
    }
}

fn make_neon() -> (d: Def)
    ensures
        d@ == neon(),
        super::in_order(d@.stops),
        within(d@.stops),
{
    let mut stops: Vec<Stop> = Vec::new();
    stops.push(stop(0, 4, 0, 10));
    stops.push(stop(180_000_000, 126, 0, 128));
    stops.push(stop(340_000_000, 240, 40, 200));
    stops.push(stop(500_000_000, 255, 255, 255));
    stops.push(stop(660_000_000, 40, 224, 240));
    stops.push(stop(820_000_000, 0, 48, 96));
    assert(stops@ =~= neon().stops);
    Def { name: "neon", blurb: "black, magenta, cyan, white \u{2014} maximum chroma", stops }
}

/// Spectrum: the full hue circle — honest about being cyclic.
pub open spec fn spectrum() -> DefModel {
    DefModel {
        name: "spectrum"@,
        blurb: "the full hue circle \u{2014} honest about being cyclic"@,
        stops: seq![
            tone(0, 214, 44, 44),
            tone(167_000_000, 220, 156, 36),
            tone(333_000_000, 188, 210, 48),
            tone(500_000_000, 48, 190, 120),
            tone(667_000_000, 44, 128, 214),
            tone(833_000_000, 140, 62, 190),
        ],
    }
}

fn make_spectrum() -> (d: Def)
    ensures
        d@ == spectrum(),
        super::in_order(d@.stops),
        within(d@.stops),
{
    let mut stops: Vec<Stop> = Vec::new();
    stops.push(stop(0, 214, 44, 44));
    stops.push(stop(167_000_000, 220, 156, 36));
    stops.push(stop(333_000_000, 188, 210, 48));
    stops.push(stop(500_000_000, 48, 190, 120));
    stops.push(stop(667_000_000, 44, 128, 214));
    stops.push(stop(833_000_000, 140, 62, 190));
    assert(stops@ =~= spectrum().stops);
    Def { name: "spectrum", blurb: "the full hue circle \u{2014} honest about being cyclic", stops }
}

/// Ash: neutral greyscale: read structure with no hue at all.
pub open spec fn ash() -> DefModel {
    DefModel {
        name: "ash"@,
        blurb: "neutral greyscale: read structure with no hue at all"@,
        stops: seq![
            tone(0, 8, 8, 10),
            tone(250_000_000, 64, 64, 70),
            tone(450_000_000, 140, 140, 148),
            tone(620_000_000, 220, 220, 226),
            tone(780_000_000, 252, 252, 254),
            tone(920_000_000, 40, 40, 46),
        ],
    }
}

fn make_ash() -> (d: Def)
    ensures
        d@ == ash(),
        super::in_order(d@.stops),
        within(d@.stops),
{
    let mut stops: Vec<Stop> = Vec::new();
    stops.push(stop(0, 8, 8, 10));
    stops.push(stop(250_000_000, 64, 64, 70));
    stops.push(stop(450_000_000, 140, 140, 148));
    stops.push(stop(620_000_000, 220, 220, 226));
    stops.push(stop(780_000_000, 252, 252, 254));
    stops.push(stop(920_000_000, 40, 40, 46));
    assert(stops@ =~= ash().stops);
    Def { name: "ash", blurb: "neutral greyscale: read structure with no hue at all", stops }
}

/// Cyanotype: blueprint duotone: Prussian blue and paper.
pub open spec fn cyanotype() -> DefModel {
    DefModel {
        name: "cyanotype"@,
        blurb: "blueprint duotone: Prussian blue and paper"@,
        stops: seq![
            tone(0, 4, 12, 30),
            tone(280_000_000, 18, 52, 104),
            tone(500_000_000, 58, 108, 164),
            tone(680_000_000, 166, 196, 220),
            tone(820_000_000, 238, 240, 232),
            tone(940_000_000, 12, 30, 66),
        ],
    }
}

fn make_cyanotype() -> (d: Def)
    ensures
        d@ == cyanotype(),
        super::in_order(d@.stops),
        within(d@.stops),
{
    let mut stops: Vec<Stop> = Vec::new();
    stops.push(stop(0, 4, 12, 30));
    stops.push(stop(280_000_000, 18, 52, 104));
    stops.push(stop(500_000_000, 58, 108, 164));
    stops.push(stop(680_000_000, 166, 196, 220));
    stops.push(stop(820_000_000, 238, 240, 232));
    stops.push(stop(940_000_000, 12, 30, 66));
    assert(stops@ =~= cyanotype().stops);
    Def { name: "cyanotype", blurb: "blueprint duotone: Prussian blue and paper", stops }
}

/// Sepia: old print: warm brown-black through paper white.
pub open spec fn sepia() -> DefModel {
    DefModel {
        name: "sepia"@,
        blurb: "old print: warm brown-black through paper white"@,
        stops: seq![
            tone(0, 18, 12, 8),
            tone(260_000_000, 76, 52, 32),
            tone(480_000_000, 150, 116, 78),
            tone(660_000_000, 216, 190, 152),
            tone(800_000_000, 248, 240, 224),
            tone(920_000_000, 50, 34, 22),
        ],
    }
}

fn make_sepia() -> (d: Def)
    ensures
        d@ == sepia(),
        super::in_order(d@.stops),
        within(d@.stops),
{
    let mut stops: Vec<Stop> = Vec::new();
    stops.push(stop(0, 18, 12, 8));
    stops.push(stop(260_000_000, 76, 52, 32));
    stops.push(stop(480_000_000, 150, 116, 78));
    stops.push(stop(660_000_000, 216, 190, 152));
    stops.push(stop(800_000_000, 248, 240, 224));
    stops.push(stop(920_000_000, 50, 34, 22));
    assert(stops@ =~= sepia().stops);
    Def { name: "sepia", blurb: "old print: warm brown-black through paper white", stops }
}

/// Abyss: almost all dark, one narrow bioluminescent band.
pub open spec fn abyss() -> DefModel {
    DefModel {
        name: "abyss"@,
        blurb: "almost all dark, one narrow bioluminescent band"@,
        stops: seq![
            tone(0, 2, 3, 8),
            tone(300_000_000, 6, 14, 28),
            tone(460_000_000, 16, 52, 74),
            tone(560_000_000, 92, 206, 198),
            tone(640_000_000, 222, 252, 246),
            tone(760_000_000, 14, 40, 60),
            tone(900_000_000, 3, 5, 12),
        ],
    }
}

fn make_abyss() -> (d: Def)
    ensures
        d@ == abyss(),
        super::in_order(d@.stops),
        within(d@.stops),
{
    let mut stops: Vec<Stop> = Vec::new();
    stops.push(stop(0, 2, 3, 8));
    stops.push(stop(300_000_000, 6, 14, 28));
    stops.push(stop(460_000_000, 16, 52, 74));
    stops.push(stop(560_000_000, 92, 206, 198));
    stops.push(stop(640_000_000, 222, 252, 246));
    stops.push(stop(760_000_000, 14, 40, 60));
    stops.push(stop(900_000_000, 3, 5, 12));
    assert(stops@ =~= abyss().stops);
    Def { name: "abyss", blurb: "almost all dark, one narrow bioluminescent band", stops }
}

/// Every stop is within the gradient.
pub open spec fn within(s: Seq<Stop>) -> bool {
    forall|i: int| 0 <= i < s.len() ==> 0 <= (#[trigger] s[i]).at < UNIT
}

/// How many gradients the library has.
pub const SIZE: usize = 20;

/// Library gradient `i`. The order is roughly warm to cool to neutral, because
/// that is how one scans a list looking for one.
#[verifier::opaque]
pub open spec fn entry(i: int) -> DefModel {
    if i == 0 {
        ember()
    } else if i == 1 {
        lava()
    } else if i == 2 {
        sunset()
    } else if i == 3 {
        copper()
    } else if i == 4 {
        autumn()
    } else if i == 5 {
        sodium()
    } else if i == 6 {
        ocean()
    } else if i == 7 {
        ice()
    } else if i == 8 {
        cobalt()
    } else if i == 9 {
        jade()
    } else if i == 10 {
        fern()
    } else if i == 11 {
        amethyst()
    } else if i == 12 {
        bloom()
    } else if i == 13 {
        peacock()
    } else if i == 14 {
        neon()
    } else if i == 15 {
        spectrum()
    } else if i == 16 {
        ash()
    } else if i == 17 {
        cyanotype()
    } else if i == 18 {
        sepia()
    } else {
        abyss()
    }
}

fn make(i: usize) -> (d: Def)
    requires
        i < SIZE,
    ensures
        d@ == entry(i as int),
        super::in_order(d@.stops),
        within(d@.stops),
{
    reveal(entry);
    if i == 0 {
        make_ember()
    } else if i == 1 {
        make_lava()
    } else if i == 2 {
        make_sunset()
    } else if i == 3 {
        make_copper()
    } else if i == 4 {
        make_autumn()
    } else if i == 5 {
        make_sodium()
    } else if i == 6 {
        make_ocean()
    } else if i == 7 {
        make_ice()
    } else if i == 8 {
        make_cobalt()
    } else if i == 9 {
        make_jade()
    } else if i == 10 {
        make_fern()
    } else if i == 11 {
        make_amethyst()
    } else if i == 12 {
        make_bloom()
    } else if i == 13 {
        make_peacock()
    } else if i == 14 {
        make_neon()
    } else if i == 15 {
        make_spectrum()
    } else if i == 16 {
        make_ash()
    } else if i == 17 {
        make_cyanotype()
    } else if i == 18 {
        make_sepia()
    } else {
        make_abyss()
    }
}

/// The palette of a library gradient.
pub open spec fn palette_of(d: DefModel) -> PaletteModel {
    PaletteModel {
        name: Some(d.name),
        body: BodyModel::Stops(super::sorted(d.stops)),
        cyclic: true,
        interpolate: Interpolate::Rgb,
        rotate: 0,
        reverse: false,
    }
}

fn build(d: Def) -> (p: Palette)
    requires
        super::in_order(d@.stops),
        within(d@.stops),
    ensures
        p@ == palette_of(d@),
        super::readable(p@),
{
    proof {
        super::sorting_orders(d.stops@);
    }
    let mut p = Palette::from_stops(&d.stops);
    let mut name = String::new();
    name.append(d.name);
    assert(name@ =~= d.name@);
    p.name = Some(name);
    p
}

/// Every library palette, in list order. Each can be read.
pub fn all() -> (v: Vec<Palette>)
    ensures
        v@.len() == SIZE,
        forall|i: int|
            0 <= i < SIZE ==> (#[trigger] v@[i])@ == palette_of(entry(i)) && super::readable(
                v@[i]@,
            ),
{
    let mut v: Vec<Palette> = Vec::new();
    let mut i: usize = 0;
    while i < SIZE
        invariant
            i <= SIZE,
            v@.len() == i,
            forall|k: int|
                0 <= k < i ==> (#[trigger] v@[k])@ == palette_of(entry(k)) && super::readable(
                    v@[k]@,
                ),
        decreases SIZE - i,
    {
        v.push(build(make(i)));
        i += 1;
    }
    v
}

/// Names, in list order.
pub fn names() -> (v: Vec<&'static str>)
    ensures
        v@.len() == SIZE,
        forall|i: int| 0 <= i < SIZE ==> (#[trigger] v@[i])@ == entry(i).name,
{
    let mut v: Vec<&'static str> = Vec::new();
    let mut i: usize = 0;
    while i < SIZE
        invariant
            i <= SIZE,
            v@.len() == i,
            forall|k: int| 0 <= k < i ==> (#[trigger] v@[k])@ == entry(k).name,
        decreases SIZE - i,
    {
        v.push(make(i).name);
        i += 1;
    }
    v
}

/// The names, one after another in list order.
pub open spec fn name_list() -> Seq<Seq<char>> {
    Seq::new(SIZE as nat, |i: int| entry(i).name)
}

/// The names on one line, with commas between them.
pub fn listed() -> (s: String)
    ensures
        s@ == text::joined(name_list(), ", "@),
{
    let mut v: Vec<String> = Vec::new();
    let mut i: usize = 0;
    while i < SIZE
        invariant
            i <= SIZE,
            text::views(v@) == name_list().take(i as int),
        decreases SIZE - i,
    {
        let ghost before = text::views(v@);
        let mut name = String::new();
        name.append(make(i).name);
        let ghost shown = name@;
        assert(shown =~= entry(i as int).name);
        v.push(name);
        i += 1;
        assert(text::views(v@) =~= before.push(shown));
        assert(before.push(shown) =~= name_list().take(i as int));
    }
    assert(name_list().take(i as int) =~= name_list());
    text::join(&v, ", ")
}

/// The first gradient from `from` on with this very name.
pub open spec fn named(name: Seq<char>, from: int) -> Option<int>
    decreases SIZE - from,
{
    if from >= SIZE {
        None
    } else if entry(from).name == name {
        Some(from)
    } else {
        named(name, from + 1)
    }
}

/// The first gradient from `from` on with this name in any case.
pub open spec fn found(name: Seq<char>, from: int) -> Option<int>
    decreases SIZE - from,
{
    if from >= SIZE {
        None
    } else if text::lowered(entry(from).name) == text::lowered(name) {
        Some(from)
    } else {
        found(name, from + 1)
    }
}

/// One-line description of a library palette.
pub fn blurb(name: &str) -> (r: Option<&'static str>)
    ensures
        match named(name@, 0) {
            Some(i) => r is Some && (r->0)@ == entry(i).blurb,
            None => r is None,
        },
{
    let mut i: usize = 0;
    while i < SIZE
        invariant
            i <= SIZE,
            named(name@, 0) == named(name@, i as int),
        decreases SIZE - i,
    {
        let d = make(i);
        if text::same(d.name, name) {
            return Some(d.blurb);
        }
        i += 1;
    }
    None
}

/// Look a palette up by name, in any case. One that is found can be read.
pub fn get(name: &str) -> (r: Option<Palette>)
    ensures
        match found(name@, 0) {
            Some(i) => r is Some && (r->0)@ == palette_of(entry(i)) && super::readable((r->0)@),
            None => r is None,
        },
{
    let mut i: usize = 0;
    while i < SIZE
        invariant
            i <= SIZE,
            found(name@, 0) == found(name@, i as int),
        decreases SIZE - i,
    {
        let d = make(i);
        if text::same_ignoring_case(d.name, name) {
            return Some(build(d));
        }
        i += 1;
    }
    None
}

/// Number of palettes in the library.
pub fn len() -> (n: usize)
    ensures
        n == SIZE,
{
    SIZE
}

/// The name of library palette `i`, and what it is like.
pub fn title(i: usize) -> (r: (&'static str, &'static str))
    requires
        i < SIZE,
    ensures
        r.0@ == entry(i as int).name,
        r.1@ == entry(i as int).blurb,
{
    let d = make(i);
    (d.name, d.blurb)
}

/// A random library palette: one of them, whichever the generator picks.
pub fn random(rng: &mut StdRng) -> (p: Palette)
    ensures
        exists|i: int| 0 <= i < SIZE && p@ == palette_of(#[trigger] entry(i)),
        super::readable(p@),
{
    let i: usize = rng::below(rng, SIZE);
    at(i)
}

/// Library palette `i`.
pub fn at(i: usize) -> (p: Palette)
    requires
        i < SIZE,
    ensures
        p@ == palette_of(entry(i as int)),
        super::readable(p@),
{
    build(make(i))
}

/// A palette that is looked up by the name it is listed under is found.
pub proof fn every_listed_name_resolves(i: int)
    requires
        0 <= i < SIZE,
    ensures
        found(entry(i).name, 0) is Some,
        named(entry(i).name, 0) is Some,
{
    found_from(entry(i).name, 0, i);
}

proof fn found_from(name: Seq<char>, from: int, i: int)
    requires
        0 <= from <= i < SIZE,
        entry(i).name == name,
    ensures
        found(name, from) is Some,
        named(name, from) is Some,
    decreases i - from,
{
    if from < i {
        found_from(name, from + 1, i);
    }
}

/// How long a library name is, and its first and third letter: enough to tell
/// the names apart.
spec fn mark(i: int) -> (nat, char, char) {
    if i == 0 {
        (5, 'e', 'b')
    } else if i == 1 {
        (4, 'l', 'v')
    } else if i == 2 {
        (6, 's', 'n')
    } else if i == 3 {
        (6, 'c', 'p')
    } else if i == 4 {
        (6, 'a', 't')
    } else if i == 5 {
        (6, 's', 'd')
    } else if i == 6 {
        (5, 'o', 'e')
    } else if i == 7 {
        (3, 'i', 'e')
    } else if i == 8 {
        (6, 'c', 'b')
    } else if i == 9 {
        (4, 'j', 'd')
    } else if i == 10 {
        (4, 'f', 'r')
    } else if i == 11 {
        (8, 'a', 'e')
    } else if i == 12 {
        (5, 'b', 'o')
    } else if i == 13 {
        (7, 'p', 'a')
    } else if i == 14 {
        (4, 'n', 'o')
    } else if i == 15 {
        (8, 's', 'e')
    } else if i == 16 {
        (3, 'a', 'h')
    } else if i == 17 {
        (9, 'c', 'a')
    } else if i == 18 {
        (5, 's', 'p')
    } else {
        (5, 'a', 'y')
    }
}

proof fn name_has_its_mark(i: int)
    requires
        0 <= i < SIZE,
    ensures
        text::lowered(entry(i).name).len() == mark(i).0,
        text::lowered(entry(i).name)[0] == mark(i).1,
        text::lowered(entry(i).name)[2] == mark(i).2,
{
    reveal(entry);
    if i == 0 {
        reveal_strlit("ember");
    } else if i == 1 {
        reveal_strlit("lava");
    } else if i == 2 {
        reveal_strlit("sunset");
    } else if i == 3 {
        reveal_strlit("copper");
    } else if i == 4 {
        reveal_strlit("autumn");
    } else if i == 5 {
        reveal_strlit("sodium");
    } else if i == 6 {
        reveal_strlit("ocean");
    } else if i == 7 {
        reveal_strlit("ice");
    } else if i == 8 {
        reveal_strlit("cobalt");
    } else if i == 9 {
        reveal_strlit("jade");
    } else if i == 10 {
        reveal_strlit("fern");
    } else if i == 11 {
        reveal_strlit("amethyst");
    } else if i == 12 {
        reveal_strlit("bloom");
    } else if i == 13 {
        reveal_strlit("peacock");
    } else if i == 14 {
        reveal_strlit("neon");
    } else if i == 15 {
        reveal_strlit("spectrum");
    } else if i == 16 {
        reveal_strlit("ash");
    } else if i == 17 {
        reveal_strlit("cyanotype");
    } else if i == 18 {
        reveal_strlit("sepia");
    } else {
        reveal_strlit("abyss");
    }
}

/// No two library palettes have the same name, in any case.
pub proof fn names_are_unique(i: int, j: int)
    requires
        0 <= i < SIZE,
        0 <= j < SIZE,
        i != j,
    ensures
        text::lowered(entry(i).name) != text::lowered(entry(j).name),
{
    name_has_its_mark(i);
    name_has_its_mark(j);
}

/// A palette that is looked up by the name it is listed under is the one that
/// is found.
pub proof fn a_name_finds_its_own_palette(i: int)
    requires
        0 <= i < SIZE,
    ensures
        found(entry(i).name, 0) == Some(i),
{
    finds_itself(0, i);
}

proof fn finds_itself(from: int, i: int)
    requires
        0 <= from <= i < SIZE,
    ensures
        found(entry(i).name, from) == Some(i),
    decreases i - from,
{
    if from < i {
        names_are_unique(from, i);
        finds_itself(from + 1, i);
    }
}

/// Every library palette has two stops at least, each further along than the
/// one before it, and none at the end, which is the beginning again.
pub proof fn every_palette_is_in_order_and_in_range(i: int, j: int, k: int)
    requires
        0 <= i < SIZE,
        0 <= j < k < entry(i).stops.len(),
    ensures
        entry(i).stops.len() >= 2,
        0 <= entry(i).stops[j].at < entry(i).stops[k].at < UNIT,
{
    reveal(entry);
}

/// A name finds the same palette in upper case, in lower case or in any other.
pub proof fn names_are_found_in_any_case(a: Seq<char>, b: Seq<char>, from: int)
    requires
        text::lowered(a) == text::lowered(b),
    ensures
        found(a, from) == found(b, from),
    decreases SIZE - from,
{
    if from < SIZE {
        names_are_found_in_any_case(a, b, from + 1);
    }
}

/// Every palette of the library carries the name it is listed under, is what
/// that name finds, and is two stops at least, in order, each from the
/// beginning on and before the end.
pub proof fn every_palette_is_what_its_name_finds(i: int)
    requires
        0 <= i < SIZE,
    ensures
        ({
            let p = palette_of(entry(i));
            &&& p.name == Some(entry(i).name)
            &&& found(entry(i).name, 0) == Some(i)
            &&& p.body matches BodyModel::Stops(s) && s == entry(i).stops && s.len() >= 2
                && super::in_order(s) && forall|k: int|
                0 <= k < s.len() ==> 0 <= (#[trigger] s[k]).at < UNIT
        }),
{
    let s = entry(i).stops;
    a_name_finds_its_own_palette(i);
    assert(s.len() >= 2) by {
        reveal(entry);
    }
    assert forall|j: int, k: int| 0 <= j <= k < s.len() implies s[j].at <= s[k].at by {
        if j < k {
            every_palette_is_in_order_and_in_range(i, j, k);
        }
    }
    assert forall|k: int| 0 <= k < s.len() implies 0 <= (#[trigger] s[k]).at < UNIT by {
        if k > 0 {
            every_palette_is_in_order_and_in_range(i, 0, k);
        } else {
            every_palette_is_in_order_and_in_range(i, 0, 1);
        }
    }
    super::def::sorted_stays(s);
}

} // verus!
