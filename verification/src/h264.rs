//! H.264 for `.mp4` output: what stands between the encoder's Annex-B packets
//! and the samples of an MP4 file.
//!
//! * **Framing.** The encoder separates NAL units by `00 00 01` start codes;
//!   a sample prefixes each with its own 4-byte big-endian length.
//! * **Parameter sets.** SPS and PPS describe the stream and belong in the
//!   `avcC` box, not in the samples. The first of each is kept and none
//!   reaches a sample.

use vstd::prelude::*;
use crate::bytes;
use crate::text;
use openh264::encoder::{Encoder, FrameType};
use openh264::formats::YUVSlices;

verus! {

/// One sample of the file: a frame's slices, and whether decoding can start
/// there.
pub struct Sample {
    pub data: Vec<u8>,
    pub sync: bool,
}

/// The kind of frame that the encoder made of a picture.
#[derive(Clone, Copy, Debug, PartialEq, Eq, Structural)]
pub enum FrameKind {
    Invalid,
    Idr,
    I,
    P,
    Skip,
    Mixed,
}

/// A planar 8-bit 4:2:0 picture with tight rows.
pub struct Yuv420 {
    pub width: usize,
    pub height: usize,
    pub y: Vec<u8>,
    pub u: Vec<u8>,
    pub v: Vec<u8>,
}

impl Yuv420 {
    /// Each plane holds exactly its rows, and both sides are even.
    pub open spec fn valid(&self) -> bool {
        &&& self.width % 2 == 0
        &&& self.height % 2 == 0
        &&& 0 < self.width <= i32::MAX
        &&& 0 < self.height <= i32::MAX
        &&& self.y.len() == self.height * self.width
        &&& self.u.len() == (self.height / 2) * (self.width / 2)
        &&& self.v.len() == (self.height / 2) * (self.width / 2)
    }

    /// What an encoder is handed: the luma plane and the two of chroma, blue
    /// difference first, the width before the height, and the strides of rows
    /// that stand tight.
    pub fn slices(&self) -> (p: ((&[u8], &[u8], &[u8]), (usize, usize), (usize, usize, usize)))
        ensures
            p.0.0@ == self.y@,
            p.0.1@ == self.u@,
            p.0.2@ == self.v@,
            p.1 == (self.width, self.height),
            p.2 == (self.width, self.width / 2, self.width / 2),
    {
        (
            (self.y.as_slice(), self.u.as_slice(), self.v.as_slice()),
            (self.width, self.height),
            (self.width, self.width / 2, self.width / 2),
        )
    }
}

/// The encoder's quantizer for a quality of 0 to 100: 51 is the coarsest and
/// 1 the finest, and more quality never makes it coarser.
pub open spec fn quantizer_of(quality: nat) -> nat {
    let q = if quality > 100 { 100 } else { quality };
    (51 - q * 50 / 100) as nat
}

/// Map a quality of 0 to 100 onto the quantizer.
pub fn quantizer(quality: u8) -> (qp: u8)
    ensures
        qp == quantizer_of(quality as nat),
        1 <= qp <= 51,
{
    let q: u32 = if quality > 100 {
        100
    } else {
        quality as u32
    };
    (51 - q * 50 / 100) as u8
}

/// More quality never makes the quantizer coarser.
pub proof fn quality_never_coarsens(a: nat, b: nat)
    requires
        a <= b,
    ensures
        quantizer_of(b) <= quantizer_of(a),
{
}

/// How an encoder is set up.
#[derive(Clone, Copy, Debug, PartialEq, Eq, Structural)]
pub struct EncoderSettings {
    /// The quantizer, at its finest and at its coarsest.
    pub min_qp: u8,
    pub max_qp: u8,
    /// Whether a frame may be left out.
    pub skip_frames: bool,
    pub frames_per_second: u32,
    /// How many frames there are from one keyframe to the next.
    pub intra_period: u32,
    pub threads: u16,
}

/// How an encoder is set up for a quality of 0 to 100. The quantizer is
/// pinned, so that quality is a fidelity and not a bit rate, and every frame
/// that goes in comes out: a file gives each sample one tick.
pub fn settings(fps: u32, quality: u8, threads: usize) -> (s: EncoderSettings)
    ensures
        s.min_qp == quantizer_of(quality as nat),
        s.max_qp == s.min_qp,
        !s.skip_frames,
        s.frames_per_second == fps,
        s.intra_period == 300,
        s.threads == threads % 0x1_0000,
{
    let qp: u8 = quantizer(quality);
    EncoderSettings {
        min_qp: qp,
        max_qp: qp,
        skip_frames: false,
        frames_per_second: fps,
        intra_period: 300,
        threads: (threads % 0x1_0000) as u16,
    }
}

/// A NAL unit without its leading Annex-B start code.
pub open spec fn stripped(nal: Seq<u8>) -> Seq<u8> {
    if nal.len() >= 4 && nal.take(4) == seq![0u8, 0, 0, 1] {
        nal.skip(4)
    } else if nal.len() >= 3 && nal.take(3) == seq![0u8, 0, 1] {
        nal.skip(3)
    } else {
        nal
    }
}

/// Drop a leading Annex-B start code (`00 00 01` or `00 00 00 01`).
pub fn strip_start_code(nal: &[u8]) -> (r: &[u8])
    ensures
        r@ == stripped(nal@),
{
    let n: usize = nal.len();
    if n >= 4 && nal[0] == 0 && nal[1] == 0 && nal[2] == 0 && nal[3] == 1 {
        assert(nal@.take(4) =~= seq![0u8, 0, 0, 1]);
        vstd::slice::slice_subrange(nal, 4, n)
    } else {
        assert(!(n >= 4 && nal@.take(4) == seq![0u8, 0, 0, 1])) by {
            if n >= 4 && nal@.take(4) == seq![0u8, 0, 0, 1] {
                assert(nal@[0] == nal@.take(4)[0]);
                assert(nal@[1] == nal@.take(4)[1]);
                assert(nal@[2] == nal@.take(4)[2]);
                assert(nal@[3] == nal@.take(4)[3]);
            }
        }
        if n >= 3 && nal[0] == 0 && nal[1] == 0 && nal[2] == 1 {
            assert(nal@.take(3) =~= seq![0u8, 0, 1]);
            vstd::slice::slice_subrange(nal, 3, n)
        } else {
            assert(!(n >= 3 && nal@.take(3) == seq![0u8, 0, 1])) by {
                if n >= 3 && nal@.take(3) == seq![0u8, 0, 1] {
                    assert(nal@[0] == nal@.take(3)[0]);
                    assert(nal@[1] == nal@.take(3)[1]);
                    assert(nal@[2] == nal@.take(3)[2]);
                }
            }
            nal
        }
    }
}

/// The payload of the `avcC` box for one SPS and one PPS.
///
/// Profile, compatibility and level are read out of the SPS; the lengths are
/// 16-bit and keep the low bits of a longer set.
pub open spec fn decoder_config(sps: Seq<u8>, pps: Seq<u8>) -> Seq<u8> {
    seq![1u8, sps[1], sps[2], sps[3], 0xFF, 0xE1] + bytes::be16(sps.len()) + sps + seq![1u8] + bytes::be16(
        pps.len(),
    ) + pps
}

/// What is said of an SPS that cannot describe a stream.
pub open spec fn short_sps_text(len: nat) -> Seq<char> {
    "SPS too short to describe a stream ("@ + text::decimal(len) + " bytes)"@
}

/// Build an AVCDecoderConfigurationRecord, the payload of the `avcC` box.
pub fn avc_decoder_config(sps: &[u8], pps: &[u8]) -> (r: Result<Vec<u8>, String>)
    ensures
        r is Ok <==> sps@.len() >= 4,
        r is Ok ==> r->Ok_0@ == decoder_config(sps@, pps@),
        r is Err ==> r->Err_0@ == short_sps_text(sps@.len()),
{
    if sps.len() < 4 {
        let mut e = String::new();
        e.append("SPS too short to describe a stream (");
        text::push_decimal(&mut e, sps.len() as u128);
        e.append(" bytes)");
        assert(e@ =~= short_sps_text(sps@.len()));
        return Err(e);
    }
    let mut c: Vec<u8> = Vec::new();
    c.push(1);
    c.push(sps[1]);
    c.push(sps[2]);
    c.push(sps[3]);
    c.push(0xFF);
    c.push(0xE1);
    bytes::push_be16(&mut c, sps.len() as u64);
    bytes::push_bytes(&mut c, sps, 0);
    c.push(1);
    bytes::push_be16(&mut c, pps.len() as u64);
    bytes::push_bytes(&mut c, pps, 0);
    assert(c@ =~= decoder_config(sps@, pps@));
    Ok(c)
}

/// NAL unit types that are configuration or carry nothing a sample needs.
pub open spec fn left_out(kind: int) -> bool {
    kind == 7 || kind == 8 || kind == 9
}

/// The type of a bare NAL unit: the low five bits of its first byte.
pub open spec fn nal_kind(nal: Seq<u8>) -> int {
    nal[0] as int % 32
}

/// Whether a NAL unit, once bare, goes into the sample.
pub open spec fn goes_in(nal: Seq<u8>) -> bool {
    stripped(nal).len() > 0 && !left_out(nal_kind(stripped(nal)))
}

/// A NAL unit as it stands in a sample: its length, then its bytes.
pub open spec fn framed(nal: Seq<u8>) -> Seq<u8> {
    bytes::be32(stripped(nal).len()) + stripped(nal)
}

/// The sample made of a frame's NAL units.
pub open spec fn payload(nals: Seq<Vec<u8>>) -> Seq<u8>
    decreases nals.len(),
{
    if nals.len() == 0 {
        Seq::empty()
    } else if goes_in(nals.last()@) {
        payload(nals.drop_last()) + framed(nals.last()@)
    } else {
        payload(nals.drop_last())
    }
}

/// The first bare NAL unit of type `kind`, if there is one.
pub open spec fn first_of(kind: int, nals: Seq<Vec<u8>>) -> Option<Seq<u8>>
    decreases nals.len(),
{
    if nals.len() == 0 {
        None
    } else {
        match first_of(kind, nals.drop_last()) {
            Some(n) => Some(n),
            None => {
                let n = stripped(nals.last()@);
                if n.len() > 0 && nal_kind(n) == kind {
                    Some(n)
                } else {
                    None
                }
            },
        }
    }
}

/// The bare NAL units that go into the sample, in order.
pub open spec fn kept(nals: Seq<Vec<u8>>) -> Seq<Seq<u8>>
    decreases nals.len(),
{
    if nals.len() == 0 {
        Seq::empty()
    } else if goes_in(nals.last()@) {
        kept(nals.drop_last()).push(stripped(nals.last()@))
    } else {
        kept(nals.drop_last())
    }
}

/// The units of a sample, read by their length prefixes; `None` when a length
/// runs past the end.
pub open spec fn unframed(data: Seq<u8>) -> Option<Seq<Seq<u8>>>
    decreases data.len(),
{
    if data.len() == 0 {
        Some(Seq::empty())
    } else if data.len() < 4 || data.len() < 4 + bytes::be32_value(data.take(4)) {
        None
    } else {
        let n = bytes::be32_value(data.take(4)) as int;
        match unframed(data.skip(4 + n)) {
            None => None,
            Some(rest) => Some(seq![data.subrange(4, 4 + n)] + rest),
        }
    }
}

proof fn unframed_appends(front: Seq<u8>, unit: Seq<u8>)
    requires
        unframed(front) is Some,
        unit.len() < 0x1_0000_0000,
    ensures
        unframed(front + (bytes::be32(unit.len()) + unit)) == Some(unframed(front)->0.push(unit)),
    decreases front.len(),
{
    let tail = bytes::be32(unit.len()) + unit;
    let whole = front + tail;
    if front.len() == 0 {
        assert(whole =~= tail);
        assert(tail.take(4) =~= bytes::be32(unit.len()));
        bytes::be32_reads_back(unit.len());
        assert(tail.skip(4 + unit.len() as int) =~= Seq::<u8>::empty());
        assert(tail.subrange(4, 4 + unit.len() as int) =~= unit);
        assert(unframed(Seq::<u8>::empty()) == Some(Seq::<Seq<u8>>::empty()));
        assert(seq![unit] + Seq::<Seq<u8>>::empty() =~= Seq::<Seq<u8>>::empty().push(unit));
    } else {
        let n = bytes::be32_value(front.take(4)) as int;
        let rest = front.skip(4 + n);
        unframed_appends(rest, unit);
        assert(whole.take(4) =~= front.take(4));
        assert(whole.skip(4 + n) =~= rest + tail);
        assert(whole.subrange(4, 4 + n) =~= front.subrange(4, 4 + n));
        let head = front.subrange(4, 4 + n);
        assert(seq![head] + unframed(rest)->0.push(unit) =~= (seq![head] + unframed(
            rest,
        )->0).push(unit));
    }
}

/// Reading a sample by its length prefixes gives back exactly the bare NAL
/// units that went in, in order.
pub proof fn sample_reads_back(nals: Seq<Vec<u8>>)
    requires
        forall|i: int| 0 <= i < nals.len() ==> (#[trigger] nals[i])@.len() < 0x1_0000_0000,
    ensures
        unframed(payload(nals)) == Some(kept(nals)),
    decreases nals.len(),
{
    if nals.len() > 0 {
        sample_reads_back(nals.drop_last());
        if goes_in(nals.last()@) {
            assert(nals[nals.len() - 1]@.len() < 0x1_0000_0000);
            unframed_appends(payload(nals.drop_last()), stripped(nals.last()@));
        }
    }
}

/// The outside encoder: opaque.
#[verifier::external_type_specification]
#[verifier::external_body]
pub struct ExEncoder(Encoder);

/// `Encoder::encode` on one picture: the kind of frame that it made, variant
/// by variant of the outside `FrameType`, and the NAL units of every layer,
/// layer by layer, or the encoder's message.
///
/// Nothing is claimed of what comes back: it depends on the encoder's state
/// and on its native library.
#[verifier::external_body]
fn encode(
    encoder: &mut Encoder,
    planes: (&[u8], &[u8], &[u8]),
    size: (usize, usize),
    strides: (usize, usize, usize),
) -> (r: Result<(FrameKind, Vec<Vec<u8>>), String>)
    requires
        strides.0 == size.0,
        strides.1 == size.0 / 2,
        strides.2 == size.0 / 2,
        0 < size.0 <= i32::MAX,
        0 < size.1 <= i32::MAX,
        planes.0@.len() == size.1 * strides.0,
        planes.1@.len() == (size.1 / 2) * strides.1,
        planes.2@.len() == (size.1 / 2) * strides.2,
{
    let stream = encoder.encode(&YUVSlices::new(planes, size, strides)).map_err(|e| e.to_string())?;
    let mut nals = Vec::new();
    for layer in (0..stream.num_layers()).map_while(|l| stream.layer(l)) {
        nals.extend((0..layer.nal_count()).map_while(|n| layer.nal_unit(n).map(|b| b.to_vec())));
    }
    let kind = match stream.frame_type() {
        FrameType::Invalid => FrameKind::Invalid,
        FrameType::IDR => FrameKind::Idr,
        FrameType::I => FrameKind::I,
        FrameType::P => FrameKind::P,
        FrameType::Skip => FrameKind::Skip,
        FrameType::IPMixed => FrameKind::Mixed,
    };
    Ok((kind, nals))
}

impl FrameKind {
    /// The kind's name as it is printed.
    pub open spec fn name_text(self) -> Seq<char> {
        match self {
            FrameKind::Invalid => "Invalid"@,
            FrameKind::Idr => "IDR"@,
            FrameKind::I => "I"@,
            FrameKind::P => "P"@,
            FrameKind::Skip => "Skip"@,
            FrameKind::Mixed => "IPMixed"@,
        }
    }

    /// The kind's name.
    pub fn name(self) -> (s: &'static str)
        ensures
            s@ == self.name_text(),
    {
        match self {
            FrameKind::Invalid => "Invalid",
            FrameKind::Idr => "IDR",
            FrameKind::I => "I",
            FrameKind::P => "P",
            FrameKind::Skip => "Skip",
            FrameKind::Mixed => "IPMixed",
        }
    }

    /// Whether decoding can start at a frame of this kind.
    pub fn is_sync(self) -> (b: bool)
        ensures
            b == (self == FrameKind::Idr || self == FrameKind::I),
    {
        match self {
            FrameKind::Idr => true,
            FrameKind::I => true,
            _ => false,
        }
    }
}

/// What is said when a frame came back without slices.
pub open spec fn no_slices_text(frame: nat, kind: FrameKind) -> Seq<char> {
    "openh264 produced no slice data for frame "@ + text::decimal(frame) + " (frame type "@
        + kind.name_text() + ")"@
}

/// The samples and parameter sets collected so far.
pub struct Track {
    pub samples: Vec<Sample>,
    /// SPS and PPS, lifted from the first keyframe for the `avcC` box
    pub sps: Option<Vec<u8>>,
    pub pps: Option<Vec<u8>>,
}

/// What a kept parameter set holds.
pub open spec fn set_view(set: Option<Vec<u8>>) -> Option<Seq<u8>> {
    match set {
        Some(v) => Some(v@),
        None => None,
    }
}

/// The parameter set after a frame: the one kept before, or the frame's first.
pub open spec fn set_after(set: Option<Vec<u8>>, kind: int, nals: Seq<Vec<u8>>) -> Option<Seq<u8>> {
    match set {
        Some(v) => Some(v@),
        None => first_of(kind, nals),
    }
}

/// What the collector holds after the NAL units of one frame: the samples
/// grow by the frame's, unless the frame had no slices, and the first of each
/// parameter set stays.
pub open spec fn track_after(
    before: Track,
    after: Track,
    nals: Seq<Vec<u8>>,
    kind: FrameKind,
    r: Result<(), String>,
) -> bool {
    &&& set_view(after.sps) == set_after(before.sps, 7, nals)
    &&& set_view(after.pps) == set_after(before.pps, 8, nals)
    &&& r is Ok <==> payload(nals).len() > 0
    &&& r is Ok ==> {
        &&& after.samples.len() == before.samples.len() + 1
        &&& after.samples@.drop_last() == before.samples@
        &&& after.samples@.last().data@ == payload(nals)
        &&& after.samples@.last().sync == (kind == FrameKind::Idr || kind == FrameKind::I)
    }
    &&& r is Err ==> {
        &&& after.samples@ == before.samples@
        &&& r->Err_0@ == no_slices_text(before.samples@.len(), kind)
    }
}

/// Whether what was collected makes a file: a frame at least, both parameter
/// sets, and an SPS that describes the stream.
pub open spec fn can_finish(t: Track) -> bool {
    &&& t.samples@.len() > 0
    &&& t.sps is Some
    &&& t.pps is Some
    &&& t.sps->0@.len() >= 4
}

/// What is said of a collection that makes no file.
pub open spec fn unfinished_text(t: Track) -> Seq<char> {
    if t.samples@.len() == 0 {
        "no frames pushed"@
    } else if t.sps is None || t.pps is None {
        "openh264 never emitted SPS/PPS; the stream would be undecodable"@
    } else {
        short_sps_text(t.sps->0@.len())
    }
}

fn keep_first(set: &mut Option<Vec<u8>>, nal: &[u8])
    ensures
        *old(set) is Some ==> *final(set) == *old(set),
        *old(set) is None ==> *final(set) is Some && (*final(set))->0@ == nal@,
{
    if set.is_none() {
        let mut copy: Vec<u8> = Vec::new();
        bytes::push_bytes(&mut copy, nal, 0);
        assert(copy@ =~= nal@);
        *set = Some(copy);
    }
}

impl Track {
    /// Nothing collected yet.
    pub fn new() -> (t: Track)
        ensures
            t.samples@.len() == 0,
            t.sps is None,
            t.pps is None,
    {
        Track { samples: Vec::new(), sps: None, pps: None }
    }

    /// Take in the NAL units of one frame.
    pub fn push_nals(&mut self, nals: &Vec<Vec<u8>>, kind: FrameKind) -> (r: Result<(), String>)
        ensures
            track_after(*old(self), *final(self), nals@, kind, r),
    {
        let mut data: Vec<u8> = Vec::new();
        let mut i: usize = 0;
        while i < nals.len()
            invariant
                i <= nals.len(),
                self.samples@ == old(self).samples@,
                set_view(self.sps) == set_after(old(self).sps, 7, nals@.take(i as int)),
                set_view(self.pps) == set_after(old(self).pps, 8, nals@.take(i as int)),
                data@ == payload(nals@.take(i as int)),
            decreases nals.len() - i,
        {
            assert(nals@.take(i + 1).drop_last() =~= nals@.take(i as int));
            let nal = strip_start_code(nals[i].as_slice());
            if nal.len() > 0 {
                let kind: u8 = nal[0] % 32;
                if kind == 7 {
                    keep_first(&mut self.sps, nal);
                } else if kind == 8 {
                    keep_first(&mut self.pps, nal);
                } else if kind == 9 {
                } else {
                    bytes::push_be32(&mut data, nal.len() as u64);
                    bytes::push_bytes(&mut data, nal, 0);
                    assert(nal@.skip(0) =~= nal@);
                    assert(data@ =~= payload(nals@.take(i as int)) + framed(nals@[i as int]@));
                }
            }
            i += 1;
        }
        assert(nals@.take(i as int) =~= nals@);
        if data.len() == 0 {
            let mut e = String::new();
            e.append("openh264 produced no slice data for frame ");
            text::push_decimal(&mut e, self.samples.len() as u128);
            e.append(" (frame type ");
            e.append(kind.name());
            e.append(")");
            assert(e@ =~= no_slices_text(old(self).samples@.len(), kind));
            return Err(e);
        }
        let sync = kind.is_sync();
        self.samples.push(Sample { data, sync });
        assert(self.samples@.drop_last() =~= old(self).samples@);
        Ok(())
    }

    /// The `avcC` payload for what was collected, as it is needed to write the
    /// file.
    pub fn config(&self) -> (r: Result<Vec<u8>, String>)
        ensures
            r is Ok <==> can_finish(*self),
            r is Ok ==> r->Ok_0@ == decoder_config(self.sps->0@, self.pps->0@),
            r is Err ==> r->Err_0@ == unfinished_text(*self),
    {
        if self.samples.len() == 0 {
            return Err("no frames pushed".to_owned());
        }
        match (&self.sps, &self.pps) {
            (Some(sps), Some(pps)) => avc_decoder_config(sps.as_slice(), pps.as_slice()),
            _ => Err("openh264 never emitted SPS/PPS; the stream would be undecodable".to_owned()),
        }
    }
}

/// An encoder with what it has produced.
pub struct H264Encoder {
    pub encoder: Encoder,
    pub width: usize,
    pub height: usize,
    pub track: Track,
}

impl H264Encoder {
    /// Collect what `encoder` makes of pictures of `width` by `height`.
    pub fn new(encoder: Encoder, width: usize, height: usize) -> (e: H264Encoder)
        ensures
            e.width == width,
            e.height == height,
            e.track.samples@.len() == 0,
            e.track.sps is None,
            e.track.pps is None,
    {
        H264Encoder { encoder, width, height, track: Track::new() }
    }

    /// Encode one picture and take in what came of it.
    ///
    /// The encoder is handed what `slices` gives. What it returns decides:
    /// either it refused the picture and nothing was taken in, or the NAL
    /// units it returned were, as `Track::push_nals` says.
    pub fn push_frame(&mut self, yuv: &Yuv420) -> (r: Result<(), String>)
        requires
            yuv.valid(),
            yuv.width == old(self).width,
            yuv.height == old(self).height,
        ensures
            final(self).width == old(self).width,
            final(self).height == old(self).height,
            ({
                ||| exists|nals: Vec<Vec<u8>>, kind: FrameKind|
                    #[trigger] track_after(old(self).track, final(self).track, nals@, kind, r)
                ||| final(self).track == old(self).track && r is Err && exists|e: String|
                    r->Err_0@ == "openh264 encode: "@ + #[trigger] e@
            }),
    {
        let (planes, size, strides) = yuv.slices();
        match encode(&mut self.encoder, planes, size, strides) {
            Err(e) => {
                let mut m = String::new();
                m.append("openh264 encode: ");
                m.append(e.as_str());
                assert(m@ =~= "openh264 encode: "@ + e@);
                Err(m)
            },
            Ok((kind, nals)) => self.track.push_nals(&nals, kind),
        }
    }

    /// The parts that the file is written of: the `avcC` payload, and the
    /// samples in the order in which their frames were pushed. Every frame was
    /// encoded on its way in, so nothing is left to flush.
    pub fn finish(self) -> (r: Result<(Vec<u8>, Vec<Sample>), String>)
        ensures
            r is Ok <==> can_finish(self.track),
            r is Ok ==> {
                &&& r->Ok_0.0@ == decoder_config(self.track.sps->0@, self.track.pps->0@)
                &&& r->Ok_0.1@ == self.track.samples@
            },
            r is Err ==> r->Err_0@ == unfinished_text(self.track),
    {
        match self.track.config() {
            Ok(config) => Ok((config, self.track.samples)),
            Err(e) => Err(e),
        }
    }
}

/// Quality is turned into a quantizer in even steps of a half: from the coarsest
/// at none to the finest at a hundred, and no finer beyond.
pub proof fn quality_is_a_quantizer_in_even_steps(quality: nat)
    ensures
        quality <= 100 ==> 2 * (51 - quantizer_of(quality)) <= quality < 2 * (51 - quantizer_of(
            quality,
        )) + 2,
        quality > 100 ==> quantizer_of(quality) == 1,
{
}

/// A start code comes off whole, whichever length it has, and nothing else does.
pub proof fn only_a_start_code_comes_off(body: Seq<u8>)
    ensures
        stripped(seq![0u8, 0, 0, 1] + body) == body,
        stripped(seq![0u8, 0, 1] + body) == body,
        body.len() > 0 && body[0] != 0 ==> stripped(body) == body,
        body.len() > 1 && body[1] != 0 ==> stripped(body) == body,
{
    let (long, short) = (seq![0u8, 0, 0, 1] + body, seq![0u8, 0, 1] + body);
    assert(long.take(4) =~= seq![0u8, 0, 0, 1]);
    assert(long.skip(4) =~= body);
    assert(short.take(3) =~= seq![0u8, 0, 1]);
    assert(short.skip(3) =~= body);
    if short.len() >= 4 {
        assert(short.take(4)[2] == 1);
        assert(seq![0u8, 0, 0, 1][2] == 0);
    }
    if body.len() >= 4 {
        assert(body.take(4)[0] == body[0] && body.take(4)[1] == body[1]);
        assert(seq![0u8, 0, 0, 1][0] == 0 && seq![0u8, 0, 0, 1][1] == 0);
    }
    if body.len() >= 3 {
        assert(body.take(3)[0] == body[0] && body.take(3)[1] == body[1]);
        assert(seq![0u8, 0, 1][0] == 0 && seq![0u8, 0, 1][1] == 0);
    }
}

/// A sample holds the slices and leaves out what describes the stream: the
/// parameter sets, which are of the kinds seven and eight, and the marks between
/// frames, of kind nine.
pub proof fn a_sample_holds_slices(nal: Seq<u8>)
    ensures
        goes_in(nal) <==> stripped(nal).len() > 0 && !(7 <= stripped(nal)[0] % 32 <= 9),
{
}

/// What is kept of a kind is the first unit that is of it.
pub proof fn the_first_of_a_kind_is_kept(kind: int, nals: Seq<Vec<u8>>)
    ensures
        match first_of(kind, nals) {
            Some(n) => exists|i: int|
                #![trigger nals[i]]
                0 <= i < nals.len() && n == stripped(nals[i]@) && is_of(nals[i]@, kind) && forall|
                    k: int,
                |
                    0 <= k < i ==> !is_of(#[trigger] nals[k]@, kind),
            None => forall|k: int| 0 <= k < nals.len() ==> !is_of(#[trigger] nals[k]@, kind),
        },
    decreases nals.len(),
{
    if nals.len() > 0 {
        let front = nals.drop_last();
        the_first_of_a_kind_is_kept(kind, front);
        let n = nals.len() - 1;
        match first_of(kind, front) {
            Some(x) => {
                let i = choose|i: int|
                    #![trigger front[i]]
                    0 <= i < front.len() && x == stripped(front[i]@) && is_of(front[i]@, kind)
                        && forall|k: int| 0 <= k < i ==> !is_of(#[trigger] front[k]@, kind);
                assert(nals[i] == front[i]);
                assert forall|k: int| 0 <= k < i implies !is_of(#[trigger] nals[k]@, kind) by {
                    assert(front[k] == nals[k]);
                }
            },
            None => {
                assert forall|k: int| 0 <= k < n implies !is_of(#[trigger] nals[k]@, kind) by {
                    assert(front[k] == nals[k]);
                }
                assert(nals[n] == nals.last());
            },
        }
    }
}

/// Whether a unit is of a kind, by the low five bits of its first byte.
pub open spec fn is_of(nal: Seq<u8>, kind: int) -> bool {
    stripped(nal).len() > 0 && stripped(nal)[0] % 32 == kind
}

/// A decoder's configuration says the version, the profile, the constraints and
/// the level that the sequence parameter set says, that lengths take four bytes,
/// and then holds one set of each kind behind its length.
pub proof fn a_configuration_holds_both_sets(sps: Seq<u8>, pps: Seq<u8>)
    requires
        4 <= sps.len() < 0x1_0000,
        pps.len() < 0x1_0000,
    ensures
        ({
            let d = decoder_config(sps, pps);
            let n = sps.len() as int;
            &&& d.len() == 11 + n + pps.len()
            &&& d[0] == 1 && d[1] == sps[1] && d[2] == sps[2] && d[3] == sps[3]
            &&& d[4] % 4 == 3
            &&& d[5] % 32 == 1
            &&& 256 * d[6] + d[7] == n
            &&& d.subrange(8, 8 + n) == sps
            &&& d[8 + n] == 1
            &&& 256 * d[9 + n] + d[10 + n] == pps.len()
            &&& d.skip(11 + n) == pps
        }),
{
    let d = decoder_config(sps, pps);
    let n = sps.len() as int;
    assert(d.subrange(8, 8 + n) =~= sps);
    assert(d.skip(11 + n) =~= pps);
}

/// A frame is one sample more: its slices, marked where decoding can start at it.
/// The parameter sets are those that came first, and a frame without slices adds
/// nothing.
pub proof fn a_frame_is_one_sample(
    before: Track,
    after: Track,
    nals: Seq<Vec<u8>>,
    kind: FrameKind,
    r: Result<(), String>,
)
    requires
        track_after(before, after, nals, kind, r),
    ensures
        r is Ok <==> payload(nals).len() > 0,
        r is Ok ==> {
            let (s, n) = (after.samples@, before.samples@.len() as int);
            &&& s.len() == n + 1
            &&& forall|i: int| 0 <= i < n ==> s[i] == (#[trigger] before.samples@[i])
            &&& s[n].data@ == payload(nals)
            &&& s[n].sync <==> kind is Idr || kind is I
        },
        r is Err ==> after.samples@ == before.samples@,
        before.sps is Some ==> after.sps is Some && (after.sps->0)@ == (before.sps->0)@,
        before.pps is Some ==> after.pps is Some && (after.pps->0)@ == (before.pps->0)@,
        before.sps is None ==> match first_of(7, nals) {
            Some(v) => after.sps is Some && (after.sps->0)@ == v,
            None => after.sps is None,
        },
        before.pps is None ==> match first_of(8, nals) {
            Some(v) => after.pps is Some && (after.pps->0)@ == v,
            None => after.pps is None,
        },
{
    if r is Ok {
        let (s, t) = (after.samples@, before.samples@);
        assert forall|i: int| 0 <= i < t.len() implies s[i] == (#[trigger] t[i]) by {
            assert(s.drop_last()[i] == t[i]);
        }
    }
}

/// A track can be finished once it has a sample, both parameter sets and the four
/// bytes that say the profile and the level.
pub proof fn a_track_is_finished_with_both_sets(t: Track)
    ensures
        can_finish(t) <==> t.samples@.len() > 0 && t.sps is Some && t.pps is Some && (
        t.sps->0)@.len() > 3,
{
}

} // verus!
