//! A finished sheet as a PNG file, with its metadata in it.

use vstd::prelude::*;
use crate::sheet;
use crate::sheet::BitDepth;

verus! {

/// The PNG file, or the encoder's message, for an RGBA image of 8 or 16 bits
/// per channel with the given `iTXt` chunks: what the `png` crate makes of
/// them.
pub uninterp spec fn png_file(
    width: u32,
    height: u32,
    sixteen: bool,
    texts: Seq<(Seq<char>, Seq<char>)>,
    data: Seq<u8>,
) -> Result<Seq<u8>, Seq<char>>;

/// What pairs of texts read.
pub open spec fn pair_views(texts: Seq<(String, String)>) -> Seq<(Seq<char>, Seq<char>)> {
    Seq::new(texts.len(), |i: int| (texts[i].0@, texts[i].1@))
}

/// What a file or a message reads.
pub open spec fn outcome_view(r: Result<Vec<u8>, String>) -> Result<Seq<u8>, Seq<char>> {
    match r {
        Ok(v) => Ok(v@),
        Err(e) => Err(e@),
    }
}

/// `png::Encoder` writing one RGBA image into memory: `new`, `set_color`,
/// `set_depth`, `add_itxt_chunk` for each text, then `write_header`,
/// `write_image_data` and `finish`.
///
/// What comes out is [`png_file`] of the arguments; which bytes those are, and
/// which keywords the encoder refuses, is left unsaid.
#[verifier::external_body]
fn encode_png(
    width: u32,
    height: u32,
    sixteen: bool,
    texts: &Vec<(String, String)>,
    data: &[u8],
) -> (r: Result<Vec<u8>, String>)
    requires
        0 < width,
        0 < height,
        data@.len() == width * height * 4 * (if sixteen {
            2int
        } else {
            1int
        }),
    ensures
        outcome_view(r) == png_file(width, height, sixteen, pair_views(texts@), data@),
{
    let mut out = Vec::new();
    let mut encoder = png::Encoder::new(&mut out, width, height);
    encoder.set_color(png::ColorType::Rgba);
    encoder.set_depth(if sixteen { png::BitDepth::Sixteen } else { png::BitDepth::Eight });
    for (keyword, text) in texts {
        let _ = encoder.add_itxt_chunk(keyword.clone(), text.clone());
    }
    let mut writer = encoder.write_header().map_err(|e| e.to_string())?;
    writer.write_image_data(data).map_err(|e| e.to_string())?;
    writer.finish().map_err(|e| e.to_string())?;
    Ok(out)
}

proof fn image_length(s: Seq<u16>, depth: BitDepth)
    ensures
        sheet::image_bytes(s, depth).len() == s.len() * (if depth == BitDepth::Sixteen {
            2int
        } else {
            1int
        }),
    decreases s.len(),
{
    if depth == BitDepth::Sixteen {
        big_endian_length(s);
    }
}

proof fn big_endian_length(s: Seq<u16>)
    ensures
        sheet::big_endian_bytes(s).len() == 2 * s.len(),
    decreases s.len(),
{
    if s.len() > 0 {
        big_endian_length(s.drop_last());
    }
}

/// What is said of a file that could not be written.
pub open spec fn save_failed_text(path: Seq<char>, e: Seq<char>) -> Seq<char> {
    "Failed to save "@ + path + ": "@ + e
}

/// The message for a file that could not be written.
pub fn encode_err(path: &str, e: &str) -> (s: String)
    ensures
        s@ == save_failed_text(path@, e@),
{
    let mut s = String::new();
    s.append("Failed to save ");
    s.append(path);
    s.append(": ");
    s.append(e);
    assert(s@ =~= save_failed_text(path@, e@));
    s
}

/// The PNG file of a finished sheet, with the render record's texts embedded.
///
/// An 8-bit file narrows the sheet back, which is exact for anything that came
/// off an 8-bit target.
pub fn sheet_png(
    path: &str,
    pixels: &Vec<u16>,
    width: u32,
    height: u32,
    depth: BitDepth,
    texts: &Vec<(String, String)>,
) -> (r: Result<Vec<u8>, String>)
    requires
        0 < width,
        0 < height,
        pixels.len() == width * height * 4,
        pixels.len() * 2 <= usize::MAX,
    ensures
        match png_file(
            width,
            height,
            depth == BitDepth::Sixteen,
            pair_views(texts@),
            sheet::image_bytes(pixels@, depth),
        ) {
            Ok(file) => r is Ok && r->Ok_0@ == file,
            Err(e) => r is Err && r->Err_0@ == save_failed_text(path@, e),
        },
{
    let data = sheet::image_data(pixels, depth);
    proof {
        image_length(pixels@, depth);
    }
    let sixteen = match depth {
        BitDepth::Eight => false,
        BitDepth::Sixteen => true,
    };
    match encode_png(width, height, sixteen, texts, data.as_slice()) {
        Ok(file) => Ok(file),
        Err(e) => Err(encode_err(path, e.as_str())),
    }
}

} // verus!
