//! Assembling frames into a looping GIF.
//!
//! The frames of a set share one size, that of the first frame. A frame that
//! does not decode or has another size fails the whole assembly and is named
//! by its index; nothing is resized. The GIF is built in memory, so that a
//! failed assembly leaves an earlier artifact as it was.

use vstd::prelude::*;
use vstd::string::*;
use crate::codec::{
    close_stream, decode_png, frame_block, loop_block, open_stream, png_raster, repeat_forever,
    stream_bytes, stream_header, stream_trailer, write_rgba_frame, GifStream,
};
use crate::raster::{fills, Raster};

verus! {

/// How long each frame is shown, in hundredths of a second.
pub const FRAME_DELAY: u16 = 10;

/// The speed of the colour quantizer, from 1 (best) to 30 (fastest).
pub const QUANTIZER_SPEED: i32 = 10;

/// The largest width and height that a GIF can have.
pub const MAX_SIDE: u32 = 65535;

/// Why no GIF was produced.
#[derive(Clone, Copy, Debug, PartialEq, Eq, Structural)]
pub enum GifEncodeError {
    /// There is no frame to assemble.
    EmptyFrameSet,
    /// The frame with this index is no PNG image that can be decoded.
    Undecodable { index: usize },
    /// The first frame has a side of zero, or one too long for a GIF.
    UnsupportedDimensions { width: u32, height: u32 },
    /// The frame with this index has another size than the first frame.
    DimensionMismatch {
        index: usize,
        expected_width: u32,
        expected_height: u32,
        width: u32,
        height: u32,
    },
    /// The encoder could not start the stream.
    EncoderInit,
    /// The encoder could not write the frame with this index.
    FrameWrite { index: usize },
    /// The encoder could not end the stream.
    EncoderFinish,
}

/// What is known of the artifact that an assembly produced.
#[derive(Debug)]
pub struct GifArtifact {
    pub path: String,
    pub width: u32,
    pub height: u32,
    pub frame_count: usize,
}

/// The mathematical content of a frame set: the common size and the pixel
/// buffers of the frames, in order. An empty set has the size zero.
pub struct FrameSetModel {
    pub width: u32,
    pub height: u32,
    pub frames: Seq<Seq<u8>>,
}

/// Whether a GIF can have this size.
pub open spec fn supported(width: u32, height: u32) -> bool {
    0 < width <= MAX_SIDE && 0 < height <= MAX_SIDE
}

impl FrameSetModel {
    pub open spec fn empty() -> FrameSetModel {
        FrameSetModel { width: 0, height: 0, frames: Seq::empty() }
    }

    /// What speaks against taking a candidate as the next frame: it did not
    /// decode, or its buffer does not fit its size; as the first frame, its
    /// size is not one that a GIF can have; as a later frame, its size is
    /// not that of the first.
    pub open spec fn defect_of(self, candidate: Option<(u32, u32, Seq<u8>)>) -> Option<
        GifEncodeError,
    > {
        let index = self.frames.len() as usize;
        match candidate {
            None => Some(GifEncodeError::Undecodable { index }),
            Some((width, height, pixels)) => if !fills(width, height, pixels) {
                Some(GifEncodeError::Undecodable { index })
            } else if self.frames.len() == 0 {
                if supported(width, height) {
                    None
                } else {
                    Some(GifEncodeError::UnsupportedDimensions { width, height })
                }
            } else if width != self.width || height != self.height {
                Some(
                    GifEncodeError::DimensionMismatch {
                        index,
                        expected_width: self.width,
                        expected_height: self.height,
                        width,
                        height,
                    },
                )
            } else {
                None
            },
        }
    }

    /// The set with one more frame. The first frame gives the set its size.
    pub open spec fn with(self, frame: (u32, u32, Seq<u8>)) -> FrameSetModel {
        if self.frames.len() == 0 {
            FrameSetModel { width: frame.0, height: frame.1, frames: seq![frame.2] }
        } else {
            FrameSetModel { width: self.width, height: self.height, frames: self.frames.push(frame.2) }
        }
    }

    /// The bytes of the frames of the set, one block after the other.
    pub open spec fn blocks(self, count: nat) -> Seq<u8>
        decreases count,
    {
        if count == 0 {
            Seq::empty()
        } else {
            self.blocks((count - 1) as nat) + frame_block(
                self.width as u16,
                self.height as u16,
                self.frames[count - 1],
                QUANTIZER_SPEED,
                FRAME_DELAY,
            )
        }
    }

    /// The GIF of the set: the header with the size, the block that makes
    /// players repeat the animation forever, the frames in order, each with
    /// the fixed delay, and the trailer.
    pub open spec fn gif(self) -> Seq<u8> {
        stream_header(self.width as u16, self.height as u16) + loop_block() + self.blocks(
            self.frames.len(),
        ) + stream_trailer()
    }
}

/// The frame set that the first `count` candidates make, or the first defect
/// among them.
pub open spec fn gathered(candidates: Seq<Option<(u32, u32, Seq<u8>)>>, count: nat) -> Result<
    FrameSetModel,
    GifEncodeError,
>
    decreases count,
{
    if count == 0 {
        Ok(FrameSetModel::empty())
    } else {
        match gathered(candidates, (count - 1) as nat) {
            Err(error) => Err(error),
            Ok(set) => match set.defect_of(candidates[count - 1]) {
                Some(error) => Err(error),
                None => Ok(set.with(candidates[count - 1]->Some_0)),
            },
        }
    }
}

/// The frame set of a list of candidates: none where the list is empty,
/// else what they make together.
pub open spec fn frame_set_of(candidates: Seq<Option<(u32, u32, Seq<u8>)>>) -> Result<
    FrameSetModel,
    GifEncodeError,
> {
    if candidates.len() == 0 {
        Err(GifEncodeError::EmptyFrameSet)
    } else {
        gathered(candidates, candidates.len())
    }
}

/// What each file of a list decodes to.
pub open spec fn decoded(files: Seq<Vec<u8>>) -> Seq<Option<(u32, u32, Seq<u8>)>> {
    Seq::new(files.len(), |i: int| png_raster(files[i]@))
}

/// What a decoding attempt shows: the raster's content, if there is one.
pub open spec fn seen(candidate: Option<Raster>) -> Option<(u32, u32, Seq<u8>)> {
    match candidate {
        Some(raster) => Some(raster@),
        None => None,
    }
}

/// What an assembly owes its caller. Where the files make no frame set, the
/// error says why. Where they do, the outcome is left to the encoder: either
/// the artifact for the given path, with the size and the number of the
/// frames, and the GIF of the set, or an encoder error.
pub open spec fn assembled(
    files: Seq<Vec<u8>>,
    path: Seq<char>,
    outcome: Result<(GifArtifact, Vec<u8>), GifEncodeError>,
) -> bool {
    match frame_set_of(decoded(files)) {
        Err(error) => outcome is Err && outcome->Err_0 == error,
        Ok(set) => match outcome {
            Ok((artifact, bytes)) => {
                &&& artifact.path@ == path
                &&& artifact.width == set.width
                &&& artifact.height == set.height
                &&& artifact.frame_count == files.len()
                &&& bytes@ == set.gif()
            },
            Err(error) => encoder_failure(error, files.len()),
        },
    }
}

/// Whether an error is one that the encoder gives for a set of `count`
/// frames.
pub open spec fn encoder_failure(error: GifEncodeError, count: nat) -> bool {
    match error {
        GifEncodeError::EncoderInit => true,
        GifEncodeError::FrameWrite { index } => index < count,
        GifEncodeError::EncoderFinish => true,
        _ => false,
    }
}

/// Frames of one size, ready to be encoded.
#[derive(Debug)]
pub struct FrameSet {
    width: u32,
    height: u32,
    frames: Vec<Raster>,
}

impl View for FrameSet {
    type V = FrameSetModel;

    closed spec fn view(&self) -> FrameSetModel {
        FrameSetModel {
            width: self.width,
            height: self.height,
            frames: Seq::new(self.frames@.len(), |i: int| self.frames@[i].pixels@),
        }
    }
}

impl FrameSet {
    /// What holds of every set that this module hands out: its frames have
    /// the set's size, which is one that a GIF can have, and their buffers
    /// fit that size.
    pub closed spec fn well_formed(&self) -> bool {
        &&& self.frames@.len() == 0 ==> self.width == 0 && self.height == 0
        &&& self.frames@.len() > 0 ==> supported(self.width, self.height)
        &&& forall|i: int|
            0 <= i < self.frames@.len() ==> (#[trigger] self.frames@[i]).width == self.width
                && self.frames@[i].height == self.height && fills(
                self.width,
                self.height,
                self.frames@[i].pixels@,
            )
    }

    /// A set without frames.
    pub fn new() -> (set: FrameSet)
        ensures
            set.well_formed(),
            set@ == FrameSetModel::empty(),
    {
        let set = FrameSet { width: 0, height: 0, frames: Vec::new() };
        assert(set@.frames =~= Seq::<Seq<u8>>::empty());
        set
    }

    /// The number of frames.
    pub fn len(&self) -> (n: usize)
        ensures
            n == self@.frames.len(),
    {
        self.frames.len()
    }

    /// The size of the frames; `(0, 0)` for a set without frames.
    pub fn dimensions(&self) -> (size: (u32, u32))
        ensures
            size == (self@.width, self@.height),
    {
        (self.width, self.height)
    }

    /// Takes the outcome of decoding the next frame. A sound frame of the
    /// right size joins the set; anything else is refused with the error that
    /// names the frame's index, and the set stays as it was.
    pub fn push(&mut self, candidate: Option<Raster>) -> (r: Result<(), GifEncodeError>)
        requires
            old(self).well_formed(),
        ensures
            final(self).well_formed(),
            match old(self)@.defect_of(seen(candidate)) {
                Some(error) => r == Err::<(), GifEncodeError>(error) && final(self)@ == old(self)@,
                None => r is Ok && final(self)@ == old(self)@.with(candidate->Some_0@),
            },
    {
        let index = self.frames.len();
        let raster = match candidate {
            None => {
                return Err(GifEncodeError::Undecodable { index });
            },
            Some(raster) => raster,
        };
        if !raster.is_filled() {
            return Err(GifEncodeError::Undecodable { index });
        }
        if index == 0 {
            if raster.width == 0 || raster.width > MAX_SIDE || raster.height == 0 || raster.height
                > MAX_SIDE {
                return Err(
                    GifEncodeError::UnsupportedDimensions {
                        width: raster.width,
                        height: raster.height,
                    },
                );
            }
            self.width = raster.width;
            self.height = raster.height;
        } else if raster.width != self.width || raster.height != self.height {
            return Err(
                GifEncodeError::DimensionMismatch {
                    index,
                    expected_width: self.width,
                    expected_height: self.height,
                    width: raster.width,
                    height: raster.height,
                },
            );
        }
        let ghost before = self@;
        let ghost pixels = raster.pixels@;
        self.frames.push(raster);
        proof {
            if index == 0 {
                assert(self@.frames =~= seq![pixels]);
            } else {
                assert(self@.frames =~= before.frames.push(pixels));
            }
        }
        Ok(())
    }
    /// Encodes the set as a GIF that repeats forever, each frame shown for
    /// the fixed delay. A set without frames is refused. For any other set the
    /// encoder decides: the result is either the GIF of the set or the error
    /// of the step at which the encoder gave up.
    pub fn encode(self) -> (r: Result<Vec<u8>, GifEncodeError>)
        requires
            self.well_formed(),
        ensures
            self@.frames.len() == 0 ==> r == Err::<Vec<u8>, GifEncodeError>(
                GifEncodeError::EmptyFrameSet,
            ),
            self@.frames.len() > 0 ==> match r {
                Ok(bytes) => bytes@ == self@.gif(),
                Err(error) => encoder_failure(error, self@.frames.len()),
            },
    {
        let ghost model = self@;
        let width = self.width;
        let height = self.height;
        let mut frames = self.frames;
        let count = frames.len();
        if count == 0 {
            return Err(GifEncodeError::EmptyFrameSet);
        }
        let side_x = width as u16;
        let side_y = height as u16;
        let mut stream = match open_stream(side_x, side_y) {
            Ok(stream) => stream,
            Err(_) => {
                return Err(GifEncodeError::EncoderInit);
            },
        };
        match repeat_forever(&mut stream) {
            Ok(_) => {},
            Err(_) => {
                return Err(GifEncodeError::EncoderInit);
            },
        }
        let ghost preamble = stream_header(side_x, side_y) + loop_block();
        let mut index: usize = 0;
        proof {
            assert(preamble + model.blocks(0) =~= preamble);
        }
        while index < count
            invariant
                index <= count,
                model == self@,
                count == model.frames.len(),
                frames@.len() == count - index,
                side_x == model.width as u16,
                side_y == model.height as u16,
                supported(model.width, model.height),
                forall|i: int|
                    0 <= i < frames@.len() ==> (#[trigger] frames@[i]).pixels@ == model.frames[index
                        + i] && fills(model.width, model.height, frames@[i].pixels@),
                preamble == stream_header(side_x, side_y) + loop_block(),
                stream_bytes(stream) == preamble + model.blocks(index as nat),
            decreases count - index,
        {
            let ghost waiting = frames@;
            let raster = frames.remove(0);
            proof {
                assert(raster == waiting[0]);
                assert forall|i: int| 0 <= i < frames@.len() implies (#[trigger] frames@[i]).pixels@
                    == model.frames[index + 1 + i] && fills(
                    model.width,
                    model.height,
                    frames@[i].pixels@,
                ) by {
                    assert(frames@[i] == waiting[i + 1]);
                }
            }
            match write_rgba_frame(
                &mut stream,
                side_x,
                side_y,
                raster.pixels,
                QUANTIZER_SPEED,
                FRAME_DELAY,
            ) {
                Ok(_) => {},
                Err(_) => {
                    return Err(GifEncodeError::FrameWrite { index });
                },
            }
            proof {
                assert(stream_bytes(stream) =~= preamble + model.blocks((index + 1) as nat));
            }
            index += 1;
        }
        match close_stream(stream) {
            Ok(bytes) => Ok(bytes),
            Err(_) => Err(GifEncodeError::EncoderFinish),
        }
    }
}

/// Decodes the bytes of a PNG file to an RGBA raster, if they are one.
pub fn decode_frame(data: &[u8]) -> (r: Option<Raster>)
    ensures
        seen(r) == png_raster(data@),
{
    match decode_png(data) {
        Ok(raster) => Some(raster),
        Err(_) => None,
    }
}

/// Decodes the files of a frame directory, in the given order, and gathers
/// them into a frame set. Fails on an empty list, and on the first file that
/// does not decode or does not fit the first frame.
pub fn gather_frames(files: &Vec<Vec<u8>>) -> (r: Result<FrameSet, GifEncodeError>)
    ensures
        match frame_set_of(decoded(files@)) {
            Ok(model) => r is Ok && r->Ok_0@ == model && r->Ok_0.well_formed(),
            Err(error) => r is Err && r->Err_0 == error,
        },
{
    if files.len() == 0 {
        return Err(GifEncodeError::EmptyFrameSet);
    }
    let mut set = FrameSet::new();
    let mut index: usize = 0;
    while index < files.len()
        invariant
            index <= files@.len(),
            set.well_formed(),
            gathered(decoded(files@), index as nat) == Ok::<FrameSetModel, GifEncodeError>(set@),
        decreases files@.len() - index,
    {
        let candidate = decode_frame(files[index].as_slice());
        match set.push(candidate) {
            Ok(_) => {},
            Err(error) => {
                proof {
                    lemma_defect_stays(decoded(files@), (index + 1) as nat, files@.len() as nat);
                }
                return Err(error);
            },
        }
        index += 1;
    }
    Ok(set)
}

/// A defect among the first candidates is the defect of every longer list.
proof fn lemma_defect_stays(candidates: Seq<Option<(u32, u32, Seq<u8>)>>, count: nat, more: nat)
    requires
        count <= more,
        gathered(candidates, count) is Err,
    ensures
        gathered(candidates, more) == gathered(candidates, count),
    decreases more,
{
    if count < more {
        lemma_defect_stays(candidates, count, (more - 1) as nat);
    }
}

/// Assembles the PNG files of a frame directory, given in frame order, into
/// one GIF for `output_path`. Returns what is known of the artifact together
/// with its bytes; nothing is written here.
pub fn assemble(files: &Vec<Vec<u8>>, output_path: &str) -> (r: Result<
    (GifArtifact, Vec<u8>),
    GifEncodeError,
>)
    ensures
        assembled(files@, output_path@, r),
{
    let set = match gather_frames(files) {
        Ok(set) => set,
        Err(error) => {
            return Err(error);
        },
    };
    let (width, height) = set.dimensions();
    let frame_count = set.len();
    proof {
        lemma_gathered_frames(decoded(files@), files@.len() as nat);
    }
    match set.encode() {
        Ok(bytes) => Ok(
            (GifArtifact { path: String::from_str(output_path), width, height, frame_count }, bytes),
        ),
        Err(error) => Err(error),
    }
}

/// Whether a candidate is a sound frame of the given size.
pub open spec fn is_frame_of(candidate: Option<(u32, u32, Seq<u8>)>, width: u32, height: u32) -> bool {
    candidate matches Some(frame) && frame.0 == width && frame.1 == height && fills(
        width,
        height,
        frame.2,
    )
}

/// Sound frames of one supported size make a frame set of that size, which
/// holds their buffers in order.
pub proof fn lemma_uniform_frames_gather(
    candidates: Seq<Option<(u32, u32, Seq<u8>)>>,
    count: nat,
    width: u32,
    height: u32,
)
    requires
        0 < count <= candidates.len(),
        supported(width, height),
        forall|i: int| 0 <= i < count ==> is_frame_of(#[trigger] candidates[i], width, height),
    ensures
        gathered(candidates, count) == Ok::<FrameSetModel, GifEncodeError>(
            FrameSetModel {
                width,
                height,
                frames: Seq::new(count, |i: int| candidates[i]->Some_0.2),
            },
        ),
    decreases count,
{
    let last = candidates[count - 1];
    assert(is_frame_of(last, width, height));
    if count == 1 {
        assert(seq![last->Some_0.2] =~= Seq::new(count, |i: int| candidates[i]->Some_0.2));
    } else {
        lemma_uniform_frames_gather(candidates, (count - 1) as nat, width, height);
        let shorter = Seq::new((count - 1) as nat, |i: int| candidates[i]->Some_0.2);
        assert(shorter.push(last->Some_0.2) =~= Seq::new(
            count,
            |i: int| candidates[i]->Some_0.2,
        ));
    }
}

/// Every frame of a gathered set was a sound frame of the set's size.
pub proof fn lemma_gathered_frames(candidates: Seq<Option<(u32, u32, Seq<u8>)>>, count: nat)
    requires
        count <= candidates.len(),
    ensures
        gathered(candidates, count) matches Ok(set) ==> {
            &&& set.frames.len() == count
            &&& count > 0 ==> supported(set.width, set.height)
            &&& forall|i: int|
                0 <= i < count ==> is_frame_of(#[trigger] candidates[i], set.width, set.height)
                    && set.frames[i] == candidates[i]->Some_0.2
        },
    decreases count,
{
    if count > 0 {
        lemma_gathered_frames(candidates, (count - 1) as nat);
    }
}

/// An empty frame directory is rejected as an empty frame set.
pub proof fn lemma_empty_directory_rejected(
    files: Seq<Vec<u8>>,
    path: Seq<char>,
    outcome: Result<(GifArtifact, Vec<u8>), GifEncodeError>,
)
    requires
        files.len() == 0,
        assembled(files, path, outcome),
    ensures
        outcome is Err,
        outcome->Err_0 == GifEncodeError::EmptyFrameSet,
{
}

/// A frame of another size than the first fails the assembly and is named by
/// its index. When the `index` frames before it are sound frames of one
/// supported size and the frame itself is sound but of another size, the
/// outcome is the mismatch at `index`, whatever follows.
pub proof fn lemma_mismatch_names_frame(
    files: Seq<Vec<u8>>,
    path: Seq<char>,
    outcome: Result<(GifArtifact, Vec<u8>), GifEncodeError>,
    index: nat,
    width: u32,
    height: u32,
)
    requires
        0 < index < files.len(),
        index <= usize::MAX,
        supported(width, height),
        forall|i: int|
            0 <= i < index ==> is_frame_of(png_raster((#[trigger] files[i])@), width, height),
        png_raster(files[index as int]@) matches Some(frame) && fills(frame.0, frame.1, frame.2) && (
        frame.0 != width || frame.1 != height),
        assembled(files, path, outcome),
    ensures
        outcome is Err,
        outcome->Err_0 == (GifEncodeError::DimensionMismatch {
            index: index as usize,
            expected_width: width,
            expected_height: height,
            width: png_raster(files[index as int]@)->Some_0.0,
            height: png_raster(files[index as int]@)->Some_0.1,
        }),
{
    let candidates = decoded(files);
    assert forall|i: int| 0 <= i < index implies is_frame_of(
        #[trigger] candidates[i],
        width,
        height,
    ) by {
        assert(is_frame_of(png_raster(files[i]@), width, height));
    }
    lemma_uniform_frames_gather(candidates, index, width, height);
    assert(gathered(candidates, index + 1) is Err);
    lemma_defect_stays(candidates, index + 1, files.len());
}

/// Round trip. Whenever an assembly produces an artifact, the artifact counts
/// one frame for each file, and every file is a sound frame of the
/// artifact's size: `N` images of one size give `N` frames of that size.
pub proof fn lemma_round_trip(
    files: Seq<Vec<u8>>,
    path: Seq<char>,
    artifact: GifArtifact,
    bytes: Vec<u8>,
)
    requires
        assembled(files, path, Ok::<(GifArtifact, Vec<u8>), GifEncodeError>((artifact, bytes))),
    ensures
        files.len() > 0,
        artifact.frame_count == files.len(),
        supported(artifact.width, artifact.height),
        forall|i: int|
            0 <= i < files.len() ==> is_frame_of(
                png_raster((#[trigger] files[i])@),
                artifact.width,
                artifact.height,
            ),
{
    let candidates = decoded(files);
    lemma_gathered_frames(candidates, files.len());
    assert forall|i: int| 0 <= i < files.len() implies is_frame_of(
        png_raster((#[trigger] files[i])@),
        artifact.width,
        artifact.height,
    ) by {
        assert(is_frame_of(candidates[i], artifact.width, artifact.height));
    }
}

/// Frames of one supported size are never refused: only the encoder can
/// fail their assembly.
pub proof fn lemma_uniform_frames_assemble(
    files: Seq<Vec<u8>>,
    path: Seq<char>,
    outcome: Result<(GifArtifact, Vec<u8>), GifEncodeError>,
    width: u32,
    height: u32,
)
    requires
        files.len() > 0,
        supported(width, height),
        forall|i: int|
            0 <= i < files.len() ==> is_frame_of(png_raster((#[trigger] files[i])@), width, height),
        assembled(files, path, outcome),
    ensures
        match outcome {
            Ok((artifact, bytes)) => artifact.frame_count == files.len() && artifact.width == width
                && artifact.height == height,
            Err(error) => encoder_failure(error, files.len()),
        },
{
    let candidates = decoded(files);
    assert forall|i: int| 0 <= i < files.len() implies is_frame_of(
        #[trigger] candidates[i],
        width,
        height,
    ) by {
        assert(is_frame_of(png_raster(files[i]@), width, height));
    }
    lemma_uniform_frames_gather(candidates, files.len(), width, height);
}

/// Idempotence. Two assemblies of the same files for the same path that both
/// produce an artifact report the same size and frame count and produce the
/// same bytes; and where the files make no frame set, both fail alike.
pub proof fn lemma_assembly_repeatable(
    files: Seq<Vec<u8>>,
    path: Seq<char>,
    first: Result<(GifArtifact, Vec<u8>), GifEncodeError>,
    second: Result<(GifArtifact, Vec<u8>), GifEncodeError>,
)
    requires
        assembled(files, path, first),
        assembled(files, path, second),
    ensures
        first is Ok && second is Ok ==> {
            &&& first->Ok_0.0.width == second->Ok_0.0.width
            &&& first->Ok_0.0.height == second->Ok_0.0.height
            &&& first->Ok_0.0.frame_count == second->Ok_0.0.frame_count
            &&& first->Ok_0.0.path@ == second->Ok_0.0.path@
            &&& first->Ok_0.1@ == second->Ok_0.1@
        },
        frame_set_of(decoded(files)) is Err ==> first is Err && second is Err && first->Err_0
            == second->Err_0,
{
}

} // verus!
